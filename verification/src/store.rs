//! Objects on the token: data objects read and replaced by label, and objects
//! destroyed one after another.
use crate::error::{Pkcs11Error, Pkcs11ErrorView};
use crate::program::{Machine, Operation, Prog, ReplyView, Reply, Request, RequestView, Step};
use crate::program;
use crate::text;
use crate::token;
use crate::token::{Attribute, AttributeType, AttributeView, ObjectClass, ObjectHandle};
use vstd::prelude::*;
use vstd::string::*;

verus! {

/// The attributes that single out an object by class and label.
pub open spec fn query(class: ObjectClass, label: Seq<char>) -> Seq<AttributeView> {
    seq![
        AttributeView::Class(class),
        AttributeView::Label(vstd::utf8::encode_utf8(label)),
    ]
}

/// The attributes that single out an object by class and label.
pub(crate) fn query_template(class: ObjectClass, label: &str) -> (t: Vec<Attribute>)
    ensures
        token::attributes(t@) == query(class, label@),
{
    let t = vec![Attribute::Class(class), Attribute::Label(text::text_bytes(label))];
    assert(token::attributes(t@) =~= query(class, label@));
    t
}

// ---------------------------------------------------------------------------
// Destroying
// ---------------------------------------------------------------------------

/// Destroys the objects in turn; the first refusal ends it.
pub open spec fn destroy_all(handles: Seq<ObjectHandle>) -> Prog<Result<(), Pkcs11ErrorView>>
    decreases handles.len(),
{
    if handles.len() == 0 {
        Prog::Done(Ok(()))
    } else {
        Prog::Ask(
            RequestView::DestroyObject(handles[0]),
            |r: ReplyView|
                match r {
                    ReplyView::Unit(Ok(_)) => destroy_all(handles.drop_first()),
                    ReplyView::Unit(Err(e)) => Prog::Done(Err(Pkcs11ErrorView::Pkcs11(e))),
                    _ => Prog::Stuck,
                },
        )
    }
}

/// Destroys objects in turn.
pub struct DestroyAll {
    handles: Vec<ObjectHandle>,
    next: usize,
}

impl DestroyAll {
    /// Starts to destroy the objects.
    pub fn start(handles: Vec<ObjectHandle>) -> (step: Step<DestroyAll, Result<(), Pkcs11Error>>)
        ensures
            program::runs_as(step, destroy_all(handles@)),
    {
        assert(handles@.skip(0) =~= handles@);
        DestroyAll::go_on(handles, 0)
    }

    fn go_on(handles: Vec<ObjectHandle>, next: usize) -> (step: Step<
        DestroyAll,
        Result<(), Pkcs11Error>,
    >)
        requires
            next <= handles@.len(),
        ensures
            program::runs_as(step, destroy_all(handles@.skip(next as int))),
    {
        if next == handles.len() {
            Step::Done(Ok(()))
        } else {
            let h = handles[next];
            Step::Ask(Request::DestroyObject(h), DestroyAll { handles, next })
        }
    }
}

/// What a result says.
pub open spec fn unit_view(r: Result<(), Pkcs11Error>) -> Result<(), Pkcs11ErrorView> {
    match r {
        Ok(u) => Ok(u),
        Err(e) => Err(e@),
    }
}

impl Operation for DestroyAll {
    type Out = Result<(), Pkcs11Error>;

    type OutView = Result<(), Pkcs11ErrorView>;

    closed spec fn prog(self) -> Prog<Result<(), Pkcs11ErrorView>> {
        if self.next <= self.handles@.len() {
            destroy_all(self.handles@.skip(self.next as int))
        } else {
            Prog::Stuck
        }
    }

    open spec fn out_view(out: Result<(), Pkcs11Error>) -> Result<(), Pkcs11ErrorView> {
        unit_view(out)
    }
}

impl Machine for DestroyAll {
    fn resume(self, reply: Reply) -> (step: Step<DestroyAll, Result<(), Pkcs11Error>>) {
        let ghost rest = self.handles@.skip(self.next as int);
        assert(rest.len() > 0);
        match reply {
            Reply::Unit(Ok(_)) => {
                assert(self.next < self.handles.len());
                assert(rest.drop_first() =~= self.handles@.skip(self.next + 1));
                DestroyAll::go_on(self.handles, self.next + 1)
            },
            Reply::Unit(Err(e)) => Step::Done(Err(Pkcs11Error::Pkcs11(e))),
            _ => vstd::pervasive::unreached(),
        }
    }
}

// ---------------------------------------------------------------------------
// Reading a data object
// ---------------------------------------------------------------------------

/// The first `CKA_VALUE` among the attributes.
pub open spec fn first_value(list: Seq<AttributeView>) -> Option<Seq<u8>>
    decreases list.len(),
{
    if list.len() == 0 {
        None
    } else {
        match list[0] {
            AttributeView::Value(v) => Some(v),
            _ => first_value(list.drop_first()),
        }
    }
}

/// The first `CKA_VALUE` among the attributes.
fn take_first_value(list: Vec<Attribute>) -> (value: Option<Vec<u8>>)
    ensures
        match value {
            Some(v) => first_value(token::attributes(list@)) == Some(v@),
            None => first_value(token::attributes(list@)) is None,
        },
{
    let n: usize = list.len();
    let mut i: usize = 0;
    let ghost whole = token::attributes(list@);
    assert(whole.skip(0) =~= whole);
    while i < n
        invariant
            i <= n,
            n == list@.len(),
            whole == token::attributes(list@),
            first_value(whole) == first_value(whole.skip(i as int)),
        decreases n - i,
    {
        assert(whole.skip(i as int)[0] == list@[i as int]@);
        match &list[i] {
            Attribute::Value(v) => {
                return Some(vstd::slice::slice_to_vec(v.as_slice()));
            },
            _ => {},
        }
        assert(whole.skip(i as int).drop_first() =~= whole.skip(i + 1));
        i = i + 1;
    }
    None
}

/// Behind the search: the value of the first object, `None` without one.
pub open spec fn read_found(label: Seq<char>, handles: Seq<ObjectHandle>) -> Prog<
    Result<Option<Seq<u8>>, Pkcs11ErrorView>,
> {
    if handles.len() == 0 {
        Prog::Done(Ok(None))
    } else {
        Prog::Ask(
            RequestView::GetAttributes(handles[0], seq![AttributeType::Value]),
            |r: ReplyView|
                match r {
                    ReplyView::Attributes(Ok(list)) => match first_value(list) {
                        Some(v) => Prog::Done(Ok(Some(v))),
                        None => Prog::Done(Err(Pkcs11ErrorView::ObjectNotFound(label))),
                    },
                    ReplyView::Attributes(Err(e)) => Prog::Done(Err(Pkcs11ErrorView::Pkcs11(e))),
                    _ => Prog::Stuck,
                },
        )
    }
}

/// Reads the value of the data object with this label; `None` if there is no
/// such object. An object without a value is an error that names the label.
pub open spec fn read_data(label: Seq<char>) -> Prog<Result<Option<Seq<u8>>, Pkcs11ErrorView>> {
    Prog::Ask(
        RequestView::FindObjects(query(ObjectClass::Data, label)),
        |r: ReplyView|
            match r {
                ReplyView::Handles(Ok(handles)) => read_found(label, handles),
                ReplyView::Handles(Err(e)) => Prog::Done(Err(Pkcs11ErrorView::Pkcs11(e))),
                _ => Prog::Stuck,
            },
    )
}

enum ReadDataState {
    Finding,
    Reading(ObjectHandle),
}

/// Reads a data object by its label.
pub struct ReadData {
    label: String,
    state: ReadDataState,
}

impl ReadData {
    /// Starts to read the data object with this label.
    pub fn start(label: String) -> (step: Step<ReadData, Result<Option<Vec<u8>>, Pkcs11Error>>)
        ensures
            program::runs_as(step, read_data(label@)),
            step is Ask,
    {
        let template = query_template(ObjectClass::Data, label.as_str());
        Step::Ask(
            Request::FindObjects(template),
            ReadData { label, state: ReadDataState::Finding },
        )
    }
}

impl Operation for ReadData {
    type Out = Result<Option<Vec<u8>>, Pkcs11Error>;

    type OutView = Result<Option<Seq<u8>>, Pkcs11ErrorView>;

    closed spec fn prog(self) -> Prog<Result<Option<Seq<u8>>, Pkcs11ErrorView>> {
        match self.state {
            ReadDataState::Finding => read_data(self.label@),
            ReadDataState::Reading(h) => read_found(self.label@, seq![h]),
        }
    }

    open spec fn out_view(out: Result<Option<Vec<u8>>, Pkcs11Error>) -> Result<
        Option<Seq<u8>>,
        Pkcs11ErrorView,
    > {
        match out {
            Ok(Some(v)) => Ok(Some(v@)),
            Ok(None) => Ok(None),
            Err(e) => Err(e@),
        }
    }
}

impl Machine for ReadData {
    fn resume(self, reply: Reply) -> (step: Step<ReadData, Result<Option<Vec<u8>>, Pkcs11Error>>) {
        match self.state {
            ReadDataState::Finding => match reply {
                Reply::Handles(Ok(handles)) => {
                    if handles.len() == 0 {
                        Step::Done(Ok(None))
                    } else {
                        let h = handles[0];
                        let wanted = vec![AttributeType::Value];
                        assert(wanted@ =~= seq![AttributeType::Value]);
                        Step::Ask(
                            Request::GetAttributes(h, wanted),
                            ReadData { label: self.label, state: ReadDataState::Reading(h) },
                        )
                    }
                },
                Reply::Handles(Err(e)) => Step::Done(Err(Pkcs11Error::Pkcs11(e))),
                _ => vstd::pervasive::unreached(),
            },
            ReadDataState::Reading(_) => match reply {
                Reply::Attributes(Ok(list)) => match take_first_value(list) {
                    Some(v) => Step::Done(Ok(Some(v))),
                    None => Step::Done(Err(Pkcs11Error::ObjectNotFound(self.label))),
                },
                Reply::Attributes(Err(e)) => Step::Done(Err(Pkcs11Error::Pkcs11(e))),
                _ => vstd::pervasive::unreached(),
            },
        }
    }
}

// ---------------------------------------------------------------------------
// Replacing a data object
// ---------------------------------------------------------------------------

/// What the library writes into `CKA_APPLICATION`: `emvault-pkcs11`.
pub open spec fn application() -> Seq<u8> {
    vstd::utf8::encode_utf8("emvault-pkcs11"@)
}

/// The attributes of a data object that stays on the token and is read only
/// after login.
pub open spec fn data_object(label: Seq<char>, value: Seq<u8>) -> Seq<AttributeView> {
    seq![
        AttributeView::Class(ObjectClass::Data),
        AttributeView::Token(true),
        AttributeView::Private(true),
        AttributeView::Label(vstd::utf8::encode_utf8(label)),
        AttributeView::Application(application()),
        AttributeView::Value(value),
    ]
}

fn data_template(label: &str, value: Vec<u8>) -> (t: Vec<Attribute>)
    ensures
        token::attributes(t@) == data_object(label@, value@),
{
    let t = vec![
        Attribute::Class(ObjectClass::Data),
        Attribute::Token(true),
        Attribute::Private(true),
        Attribute::Label(text::text_bytes(label)),
        Attribute::Application(text::text_bytes("emvault-pkcs11")),
        Attribute::Value(value),
    ];
    assert(token::attributes(t@) =~= data_object(label@, value@));
    t
}

/// Creates the data object.
pub open spec fn create_data(label: Seq<char>, value: Seq<u8>) -> Prog<
    Result<ObjectHandle, Pkcs11ErrorView>,
> {
    Prog::Ask(
        RequestView::CreateObject(data_object(label, value)),
        |r: ReplyView|
            match r {
                ReplyView::Handle(Ok(h)) => Prog::Done(Ok(h)),
                ReplyView::Handle(Err(e)) => Prog::Done(Err(Pkcs11ErrorView::Pkcs11(e))),
                _ => Prog::Stuck,
            },
    )
}

/// Has the value encoded, then creates the data object.
pub open spec fn encode_and_create(label: Seq<char>, encode: RequestView) -> Prog<
    Result<ObjectHandle, Pkcs11ErrorView>,
> {
    Prog::Ask(
        encode,
        |r: ReplyView|
            match r {
                ReplyView::Encoded(Ok(value)) => create_data(label, value),
                ReplyView::Encoded(Err(t)) => Prog::Done(Err(Pkcs11ErrorView::Serialization(t))),
                _ => Prog::Stuck,
            },
    )
}

/// Takes back the object that was created: destroys it, and tells why.
pub open spec fn take_back(new: ObjectHandle, e: Pkcs11ErrorView) -> Prog<
    Result<ObjectHandle, Pkcs11ErrorView>,
> {
    Prog::Ask(
        RequestView::DestroyObject(new),
        |r: ReplyView|
            match r {
                ReplyView::Unit(_) => Prog::Done(Err(e)),
                _ => Prog::Stuck,
            },
    )
}

/// What follows once the old objects are destroyed, or one of them is not.
pub open spec fn then_settle(new: ObjectHandle) -> spec_fn(Result<(), Pkcs11ErrorView>) -> Prog<
    Result<ObjectHandle, Pkcs11ErrorView>,
> {
    |d: Result<(), Pkcs11ErrorView>|
        match d {
            Ok(_) => Prog::Done(Ok(new)),
            Err(e) => take_back(new, e),
        }
}

/// What follows once the new object is there, or is not to be: only now do the old
/// ones go.
pub open spec fn then_clear(old_ones: Seq<ObjectHandle>) -> spec_fn(
    Result<ObjectHandle, Pkcs11ErrorView>,
) -> Prog<Result<ObjectHandle, Pkcs11ErrorView>> {
    |d: Result<ObjectHandle, Pkcs11ErrorView>|
        match d {
            Ok(new) => destroy_all(old_ones).bind(then_settle(new)),
            Err(e) => Prog::Done(Err(e)),
        }
}

/// Replaces the data objects with this label by one that holds what `encode`
/// gives: finds those there are, has the value encoded, creates the new one, and
/// then destroys the old ones. Where one of them cannot be destroyed, the new one
/// is taken back.
pub open spec fn replace_data(label: Seq<char>, encode: RequestView) -> Prog<
    Result<ObjectHandle, Pkcs11ErrorView>,
> {
    Prog::Ask(
        RequestView::FindObjects(query(ObjectClass::Data, label)),
        |r: ReplyView|
            match r {
                ReplyView::Handles(Ok(handles)) => encode_and_create(label, encode).bind(
                    then_clear(handles),
                ),
                ReplyView::Handles(Err(e)) => Prog::Done(Err(Pkcs11ErrorView::Pkcs11(e))),
                _ => Prog::Stuck,
            },
    )
}

enum ReplaceDataState {
    Finding(Request),
    Encoding(Vec<ObjectHandle>, Ghost<RequestView>),
    Creating(Vec<ObjectHandle>, Ghost<Seq<u8>>),
    Destroying(DestroyAll, ObjectHandle),
    TakingBack(ObjectHandle, Pkcs11Error),
}

/// Replaces a data object.
pub struct ReplaceData {
    label: String,
    state: ReplaceDataState,
}

/// What a result says.
pub open spec fn handle_view(r: Result<ObjectHandle, Pkcs11Error>) -> Result<
    ObjectHandle,
    Pkcs11ErrorView,
> {
    match r {
        Ok(h) => Ok(h),
        Err(e) => Err(e@),
    }
}

impl Operation for ReplaceData {
    type Out = Result<ObjectHandle, Pkcs11Error>;

    type OutView = Result<ObjectHandle, Pkcs11ErrorView>;

    closed spec fn prog(self) -> Prog<Result<ObjectHandle, Pkcs11ErrorView>> {
        match self.state {
            ReplaceDataState::Finding(encode) => replace_data(
                self.label@,
                encode@,
            ),
            ReplaceDataState::Encoding(old_ones, encode) => encode_and_create(
                self.label@,
                encode@,
            ).bind(then_clear(old_ones@)),
            ReplaceDataState::Creating(old_ones, value) => create_data(self.label@, value@).bind(
                then_clear(old_ones@),
            ),
            ReplaceDataState::Destroying(m, new) if m.prog() is Ask => m.prog().bind(
                then_settle(new),
            ),
            ReplaceDataState::TakingBack(new, e) => take_back(new, e@),
            _ => Prog::Stuck,
        }
    }

    open spec fn out_view(out: Result<ObjectHandle, Pkcs11Error>) -> Result<
        ObjectHandle,
        Pkcs11ErrorView,
    > {
        handle_view(out)
    }
}

impl ReplaceData {
    /// Starts to replace the data object with this label by what `encode`
    /// gives.
    pub fn start(label: String, encode: Request) -> (step: Step<
        ReplaceData,
        Result<ObjectHandle, Pkcs11Error>,
    >)
        ensures
            program::runs_as(step, replace_data(label@, encode@)),
            step is Ask,
    {
        let template = query_template(ObjectClass::Data, label.as_str());
        Step::Ask(
            Request::FindObjects(template),
            ReplaceData { label, state: ReplaceDataState::Finding(encode) },
        )
    }

    fn destroying(
        label: String,
        step: Step<DestroyAll, Result<(), Pkcs11Error>>,
        new: ObjectHandle,
        Ghost(prog): Ghost<Prog<Result<(), Pkcs11ErrorView>>>,
    ) -> (next: Step<ReplaceData, Result<ObjectHandle, Pkcs11Error>>)
        requires
            program::runs_as(step, prog),
        ensures
            program::runs_as(next, prog.bind(then_settle(new))),
    {
        match step {
            Step::Ask(q, m) => Step::Ask(
                q,
                ReplaceData { label, state: ReplaceDataState::Destroying(m, new) },
            ),
            Step::Done(Ok(_)) => Step::Done(Ok(new)),
            Step::Done(Err(e)) => Step::Ask(
                Request::DestroyObject(new),
                ReplaceData { label, state: ReplaceDataState::TakingBack(new, e) },
            ),
        }
    }
}

impl Machine for ReplaceData {
    fn resume(self, reply: Reply) -> (step: Step<ReplaceData, Result<ObjectHandle, Pkcs11Error>>) {
        let label = self.label;
        proof {
            reveal_with_fuel(Prog::bind, 2);
        }
        match self.state {
            ReplaceDataState::Finding(encode) => match reply {
                Reply::Handles(Ok(handles)) => {
                    let ghost asked = encode@;
                    Step::Ask(
                        encode,
                        ReplaceData {
                            label,
                            state: ReplaceDataState::Encoding(handles, Ghost(asked)),
                        },
                    )
                },
                Reply::Handles(Err(e)) => Step::Done(Err(Pkcs11Error::Pkcs11(e))),
                _ => vstd::pervasive::unreached(),
            },
            ReplaceDataState::Encoding(old_ones, _) => match reply {
                Reply::Encoded(Ok(value)) => {
                    let ghost written = value@;
                    let template = data_template(label.as_str(), value);
                    Step::Ask(
                        Request::CreateObject(template),
                        ReplaceData {
                            label,
                            state: ReplaceDataState::Creating(old_ones, Ghost(written)),
                        },
                    )
                },
                Reply::Encoded(Err(t)) => Step::Done(Err(Pkcs11Error::Serialization(t))),
                _ => vstd::pervasive::unreached(),
            },
            ReplaceDataState::Creating(old_ones, _) => match reply {
                Reply::Handle(Ok(new)) => {
                    let ghost prog = destroy_all(old_ones@);
                    let step = DestroyAll::start(old_ones);
                    ReplaceData::destroying(label, step, new, Ghost(prog))
                },
                Reply::Handle(Err(e)) => Step::Done(Err(Pkcs11Error::Pkcs11(e))),
                _ => vstd::pervasive::unreached(),
            },
            ReplaceDataState::Destroying(m, new) => {
                let ghost prog = (m.prog()->Ask_1)(reply@);
                assert(prog.bind(then_settle(new)) !is Stuck);
                let step = m.resume(reply);
                ReplaceData::destroying(label, step, new, Ghost(prog))
            },
            ReplaceDataState::TakingBack(_, e) => match reply {
                Reply::Unit(_) => Step::Done(Err(e)),
                _ => vstd::pervasive::unreached(),
            },
        }
    }
}

/// What follows once the object is written: its handle is of no interest.
pub open spec fn then_forget() -> spec_fn(Result<ObjectHandle, Pkcs11ErrorView>) -> Prog<
    Result<(), Pkcs11ErrorView>,
> {
    |d: Result<ObjectHandle, Pkcs11ErrorView>|
        match d {
            Ok(_) => Prog::Done(Ok(())),
            Err(e) => Prog::Done(Err(e)),
        }
}

/// Replaces a data object, and forgets its handle.
pub struct WriteData {
    inner: ReplaceData,
}

impl Operation for WriteData {
    type Out = Result<(), Pkcs11Error>;

    type OutView = Result<(), Pkcs11ErrorView>;

    closed spec fn prog(self) -> Prog<Result<(), Pkcs11ErrorView>> {
        if self.inner.prog() is Ask {
            self.inner.prog().bind(then_forget())
        } else {
            Prog::Stuck
        }
    }

    open spec fn out_view(out: Result<(), Pkcs11Error>) -> Result<(), Pkcs11ErrorView> {
        unit_view(out)
    }
}

impl WriteData {
    /// Goes on with a replacement.
    pub(crate) fn writing(
        step: Step<ReplaceData, Result<ObjectHandle, Pkcs11Error>>,
        Ghost(prog): Ghost<Prog<Result<ObjectHandle, Pkcs11ErrorView>>>,
    ) -> (next: Step<WriteData, Result<(), Pkcs11Error>>)
        requires
            program::runs_as(step, prog),
        ensures
            program::runs_as(next, prog.bind(then_forget())),
    {
        match step {
            Step::Ask(q, inner) => Step::Ask(q, WriteData { inner }),
            Step::Done(Ok(_)) => Step::Done(Ok(())),
            Step::Done(Err(e)) => Step::Done(Err(e)),
        }
    }
}

impl Machine for WriteData {
    fn resume(self, reply: Reply) -> (step: Step<WriteData, Result<(), Pkcs11Error>>) {
        let ghost prog = (self.inner.prog()->Ask_1)(reply@);
        assert(prog.bind(then_forget()) !is Stuck);
        let step = self.inner.resume(reply);
        WriteData::writing(step, Ghost(prog))
    }
}

} // verus!
