//! Work that alternates decisions with calls that only the outside can make.
//!
//! The library decides; it does not talk to a token. An operation is a
//! [`Machine`]: it hands out a [`Request`], takes the [`Reply`], and either
//! asks for more or is done. What an operation does is stated once, as a
//! [`Prog`]: the request it opens with, and for each reply what comes next.
use crate::bip32::{ChildNumber, DerivationPath, Fingerprint, Xpub, XpubView};
use crate::error::{HsmBackendError, HsmBackendErrorView, Pkcs11Error, Pkcs11ErrorView};
use crate::policy::{MinimalHsmPolicy, PolicyView, SigRateCounter};
use crate::signer::{Pkcs11Signer, SignerView};
use crate::token;
use crate::token::{
    Attribute, AttributeType, AttributeView, MechanismType, ObjectHandle, TokenError,
    TokenErrorView,
};
use vstd::prelude::*;

verus! {

// ---------------------------------------------------------------------------
// Requests
// ---------------------------------------------------------------------------

/// A call that the library wants made.
pub enum Request {
    /// Load the PKCS#11 library at this path.
    LoadLibrary(String),
    /// Initialize the PKCS#11 module, with the operating system's locks.
    Initialize,
    /// List the slots that hold a token.
    SlotsWithToken,
    /// Read the label of the token in this slot.
    SlotLabel(u64),
    /// Open a read-write session on this slot.
    OpenSession(u64),
    /// Log in as the user with this PIN.
    Login(String),
    /// Read the label of the token that the session is with.
    TokenLabel,
    /// List the mechanisms of the token that the session is with.
    MechanismList,
    /// Find the objects with these attributes.
    FindObjects(Vec<Attribute>),
    /// Read these attributes of an object.
    GetAttributes(ObjectHandle, Vec<AttributeType>),
    /// Create an object with these attributes.
    CreateObject(Vec<Attribute>),
    /// Destroy an object.
    DestroyObject(ObjectHandle),
    /// Derive a key from a base key by a vendor's mechanism.
    DeriveKey {
        /// The mechanism.
        mechanism: MechanismType,
        /// The mechanism's parameter.
        parameter: Vec<u8>,
        /// The base key.
        base: ObjectHandle,
        /// The attributes of the new key.
        template: Vec<Attribute>,
    },
    /// Sign a digest with `CKM_ECDSA`.
    SignEcdsa(ObjectHandle, [u8; 32]),
    /// Have the backend derive one child of a key.
    DeriveChild(ObjectHandle, ChildNumber),
    /// Have the backend derive a master key from a seed, under a label.
    DeriveMasterKey(Vec<u8>, String),
    /// Have the backend derive a key along a path.
    DerivePath(ObjectHandle, DerivationPath),
    /// Have the backend read a key's extended public key.
    ReadXpub(ObjectHandle),
    /// Have the backend read the master fingerprint from a key.
    MasterFingerprint(ObjectHandle),
    /// Have the backend's Taproot signer sign a digest.
    SignSchnorr {
        /// The key.
        key: ObjectHandle,
        /// The signer's label.
        label: String,
        /// The full path of the key.
        path: DerivationPath,
        /// The digest.
        digest: [u8; 32],
    },
    /// Have the derivation strategy sign a digest for an input.
    StrategySign(DerivationPath, [u8; 32]),
    /// Decode a stored policy.
    DecodePolicy(Vec<u8>),
    /// Decode a stored counter.
    DecodeSigRate(Vec<u8>),
    /// Encode a policy for storage.
    EncodePolicy(MinimalHsmPolicy),
    /// Encode a counter for storage.
    EncodeSigRate(SigRateCounter),
    /// Tell the time in seconds since the Unix epoch.
    Now,
    /// Open a session for this member of a fleet, and make its signer.
    BuildMember(usize),
}

/// What a [`Request`] says.
pub enum RequestView {
    LoadLibrary(Seq<char>),
    Initialize,
    SlotsWithToken,
    SlotLabel(u64),
    OpenSession(u64),
    Login(Seq<char>),
    TokenLabel,
    MechanismList,
    FindObjects(Seq<AttributeView>),
    GetAttributes(ObjectHandle, Seq<AttributeType>),
    CreateObject(Seq<AttributeView>),
    DestroyObject(ObjectHandle),
    DeriveKey {
        mechanism: MechanismType,
        parameter: Seq<u8>,
        base: ObjectHandle,
        template: Seq<AttributeView>,
    },
    SignEcdsa(ObjectHandle, Seq<u8>),
    DeriveChild(ObjectHandle, ChildNumber),
    DeriveMasterKey(Seq<u8>, Seq<char>),
    DerivePath(ObjectHandle, Seq<ChildNumber>),
    ReadXpub(ObjectHandle),
    MasterFingerprint(ObjectHandle),
    SignSchnorr { key: ObjectHandle, label: Seq<char>, path: Seq<ChildNumber>, digest: Seq<u8> },
    StrategySign(Seq<ChildNumber>, Seq<u8>),
    DecodePolicy(Seq<u8>),
    DecodeSigRate(Seq<u8>),
    EncodePolicy(PolicyView),
    EncodeSigRate(Seq<u64>),
    Now,
    BuildMember(nat),
}

impl View for Request {
    type V = RequestView;

    open spec fn view(&self) -> RequestView {
        match *self {
            Request::LoadLibrary(p) => RequestView::LoadLibrary(p@),
            Request::Initialize => RequestView::Initialize,
            Request::SlotsWithToken => RequestView::SlotsWithToken,
            Request::SlotLabel(s) => RequestView::SlotLabel(s),
            Request::OpenSession(s) => RequestView::OpenSession(s),
            Request::Login(p) => RequestView::Login(p@),
            Request::TokenLabel => RequestView::TokenLabel,
            Request::MechanismList => RequestView::MechanismList,
            Request::FindObjects(t) => RequestView::FindObjects(token::attributes(t@)),
            Request::GetAttributes(h, t) => RequestView::GetAttributes(h, t@),
            Request::CreateObject(t) => RequestView::CreateObject(token::attributes(t@)),
            Request::DestroyObject(h) => RequestView::DestroyObject(h),
            Request::DeriveKey { mechanism, parameter, base, template } => RequestView::DeriveKey {
                mechanism,
                parameter: parameter@,
                base,
                template: token::attributes(template@),
            },
            Request::SignEcdsa(h, d) => RequestView::SignEcdsa(h, d@),
            Request::DeriveChild(h, c) => RequestView::DeriveChild(h, c),
            Request::DeriveMasterKey(s, l) => RequestView::DeriveMasterKey(s@, l@),
            Request::DerivePath(h, p) => RequestView::DerivePath(h, p@),
            Request::ReadXpub(h) => RequestView::ReadXpub(h),
            Request::MasterFingerprint(h) => RequestView::MasterFingerprint(h),
            Request::SignSchnorr { key, label, path, digest } => RequestView::SignSchnorr {
                key,
                label: label@,
                path: path@,
                digest: digest@,
            },
            Request::StrategySign(p, d) => RequestView::StrategySign(p@, d@),
            Request::DecodePolicy(b) => RequestView::DecodePolicy(b@),
            Request::DecodeSigRate(b) => RequestView::DecodeSigRate(b@),
            Request::EncodePolicy(p) => RequestView::EncodePolicy(p@),
            Request::EncodeSigRate(c) => RequestView::EncodeSigRate(c.timestamps@),
            Request::Now => RequestView::Now,
            Request::BuildMember(i) => RequestView::BuildMember(i as nat),
        }
    }
}

// ---------------------------------------------------------------------------
// Replies
// ---------------------------------------------------------------------------

/// A master key as the backend hands it over.
#[derive(Clone, Copy, Debug)]
pub struct MasterKeyHandle {
    /// The master private key on the token.
    pub key_handle: ObjectHandle,
    /// The extended public key of the master, read back from the token.
    pub xpub: Xpub,
    /// The master fingerprint: the first four bytes of the HASH160 of the
    /// master public key.
    pub fingerprint: Fingerprint,
}

/// What a [`MasterKeyHandle`] says.
pub struct MasterKeyView {
    pub key_handle: ObjectHandle,
    pub xpub: XpubView,
    pub fingerprint: Seq<u8>,
}

impl View for MasterKeyHandle {
    type V = MasterKeyView;

    open spec fn view(&self) -> MasterKeyView {
        MasterKeyView {
            key_handle: self.key_handle,
            xpub: self.xpub@,
            fingerprint: self.fingerprint@,
        }
    }
}

/// What a call gave back.
pub enum Reply {
    /// It went through, or not.
    Unit(Result<(), TokenError>),
    /// Slots.
    Slots(Result<Vec<u64>, TokenError>),
    /// A label.
    Label(Result<String, TokenError>),
    /// Mechanisms.
    Mechanisms(Result<Vec<MechanismType>, TokenError>),
    /// The objects found.
    Handles(Result<Vec<ObjectHandle>, TokenError>),
    /// The attributes read.
    Attributes(Result<Vec<Attribute>, TokenError>),
    /// A new object.
    Handle(Result<ObjectHandle, TokenError>),
    /// A signature as the token gives it.
    Signature(Result<Vec<u8>, TokenError>),
    /// A key that the backend derived.
    Derived(Result<ObjectHandle, HsmBackendError>),
    /// A master key that the backend derived.
    Master(Result<MasterKeyHandle, HsmBackendError>),
    /// An extended public key.
    Xpub(Result<Xpub, HsmBackendError>),
    /// A master fingerprint.
    MasterFingerprint(Result<Fingerprint, HsmBackendError>),
    /// A Schnorr signature.
    Schnorr(Result<[u8; 64], HsmBackendError>),
    /// The strategy's ECDSA signature, in compact form.
    StrategySignature(Result<[u8; 64], Pkcs11Error>),
    /// A decoded policy.
    Policy(Result<MinimalHsmPolicy, String>),
    /// A decoded counter.
    SigRate(Result<SigRateCounter, String>),
    /// An encoded value.
    Encoded(Result<Vec<u8>, String>),
    /// The time in seconds since the Unix epoch.
    Time(u64),
    /// A member's signer.
    Built(Result<Pkcs11Signer, Pkcs11Error>),
}

/// What a [`Reply`] says.
pub enum ReplyView {
    Unit(Result<(), TokenErrorView>),
    Slots(Result<Seq<u64>, TokenErrorView>),
    Label(Result<Seq<char>, TokenErrorView>),
    Mechanisms(Result<Seq<MechanismType>, TokenErrorView>),
    Handles(Result<Seq<ObjectHandle>, TokenErrorView>),
    Attributes(Result<Seq<AttributeView>, TokenErrorView>),
    Handle(Result<ObjectHandle, TokenErrorView>),
    Signature(Result<Seq<u8>, TokenErrorView>),
    Derived(Result<ObjectHandle, HsmBackendErrorView>),
    Master(Result<MasterKeyView, HsmBackendErrorView>),
    Xpub(Result<XpubView, HsmBackendErrorView>),
    MasterFingerprint(Result<Seq<u8>, HsmBackendErrorView>),
    Schnorr(Result<Seq<u8>, HsmBackendErrorView>),
    StrategySignature(Result<Seq<u8>, Pkcs11ErrorView>),
    Policy(Result<PolicyView, Seq<char>>),
    SigRate(Result<Seq<u64>, Seq<char>>),
    Encoded(Result<Seq<u8>, Seq<char>>),
    Time(u64),
    Built(Result<SignerView, Pkcs11ErrorView>),
}

impl View for Reply {
    type V = ReplyView;

    open spec fn view(&self) -> ReplyView {
        match *self {
            Reply::Unit(Ok(u)) => ReplyView::Unit(Ok(u)),
            Reply::Unit(Err(e)) => ReplyView::Unit(Err(e@)),
            Reply::Slots(Ok(s)) => ReplyView::Slots(Ok(s@)),
            Reply::Slots(Err(e)) => ReplyView::Slots(Err(e@)),
            Reply::Label(Ok(t)) => ReplyView::Label(Ok(t@)),
            Reply::Label(Err(e)) => ReplyView::Label(Err(e@)),
            Reply::Mechanisms(Ok(m)) => ReplyView::Mechanisms(Ok(m@)),
            Reply::Mechanisms(Err(e)) => ReplyView::Mechanisms(Err(e@)),
            Reply::Handles(Ok(h)) => ReplyView::Handles(Ok(h@)),
            Reply::Handles(Err(e)) => ReplyView::Handles(Err(e@)),
            Reply::Attributes(Ok(a)) => ReplyView::Attributes(Ok(token::attributes(a@))),
            Reply::Attributes(Err(e)) => ReplyView::Attributes(Err(e@)),
            Reply::Handle(Ok(h)) => ReplyView::Handle(Ok(h)),
            Reply::Handle(Err(e)) => ReplyView::Handle(Err(e@)),
            Reply::Signature(Ok(s)) => ReplyView::Signature(Ok(s@)),
            Reply::Signature(Err(e)) => ReplyView::Signature(Err(e@)),
            Reply::Derived(Ok(h)) => ReplyView::Derived(Ok(h)),
            Reply::Derived(Err(e)) => ReplyView::Derived(Err(e@)),
            Reply::Master(Ok(m)) => ReplyView::Master(Ok(m@)),
            Reply::Master(Err(e)) => ReplyView::Master(Err(e@)),
            Reply::Xpub(Ok(x)) => ReplyView::Xpub(Ok(x@)),
            Reply::Xpub(Err(e)) => ReplyView::Xpub(Err(e@)),
            Reply::MasterFingerprint(Ok(f)) => ReplyView::MasterFingerprint(Ok(f@)),
            Reply::MasterFingerprint(Err(e)) => ReplyView::MasterFingerprint(Err(e@)),
            Reply::Schnorr(Ok(s)) => ReplyView::Schnorr(Ok(s@)),
            Reply::Schnorr(Err(e)) => ReplyView::Schnorr(Err(e@)),
            Reply::StrategySignature(Ok(s)) => ReplyView::StrategySignature(Ok(s@)),
            Reply::StrategySignature(Err(e)) => ReplyView::StrategySignature(Err(e@)),
            Reply::Policy(Ok(p)) => ReplyView::Policy(Ok(p@)),
            Reply::Policy(Err(e)) => ReplyView::Policy(Err(e@)),
            Reply::SigRate(Ok(c)) => ReplyView::SigRate(Ok(c.timestamps@)),
            Reply::SigRate(Err(e)) => ReplyView::SigRate(Err(e@)),
            Reply::Encoded(Ok(b)) => ReplyView::Encoded(Ok(b@)),
            Reply::Encoded(Err(e)) => ReplyView::Encoded(Err(e@)),
            Reply::Time(t) => ReplyView::Time(t),
            Reply::Built(Ok(s)) => ReplyView::Built(Ok(s@)),
            Reply::Built(Err(e)) => ReplyView::Built(Err(e@)),
        }
    }
}

// ---------------------------------------------------------------------------
// Programs
// ---------------------------------------------------------------------------

/// What an operation does: it is done with a result, or it asks for something
/// and goes on by the reply. A reply on which it cannot go on leaves it stuck:
/// one of another sort than it asked for, or one that breaks a bound which the
/// operation's program states.
#[verifier::reject_recursive_types(A)]
pub enum Prog<A> {
    /// Done, with this result.
    Done(A),
    /// Ask, and for each reply go on so.
    Ask(RequestView, spec_fn(ReplyView) -> Prog<A>),
    /// There is no way on.
    Stuck,
}

impl<A> Prog<A> {
    /// This program, and behind it the one that `next` gives for its result.
    pub open spec fn bind<B>(self, next: spec_fn(A) -> Prog<B>) -> Prog<B>
        decreases self,
    {
        match self {
            Prog::Done(a) => next(a),
            Prog::Ask(q, k) => Prog::Ask(q, |r: ReplyView| k(r).bind(next)),
            Prog::Stuck => Prog::Stuck,
        }
    }
}

/// An operation in progress.
pub enum Step<M, T> {
    /// The request to make, and the machine that takes its reply.
    Ask(Request, M),
    /// The result.
    Done(T),
}

/// What an operation that waits for a reply still does.
pub trait Operation: Sized {
    /// What the operation gives.
    type Out;

    /// What the result says.
    type OutView;

    /// What the operation still does: it asks, and goes on by the reply.
    spec fn prog(self) -> Prog<Self::OutView>;

    /// What a result says.
    spec fn out_view(out: Self::Out) -> Self::OutView;
}

/// Whether an operation in progress does what the program says.
pub open spec fn runs_as<M: Operation>(step: Step<M, M::Out>, prog: Prog<M::OutView>) -> bool {
    match step {
        Step::Ask(q, m) => m.prog() == prog && prog is Ask && prog->Ask_0 == q@,
        Step::Done(out) => prog == Prog::<M::OutView>::Done(M::out_view(out)),
    }
}

/// An operation that waits for a reply.
pub trait Machine: Operation {
    /// Takes the reply to the request that was asked. The reply is one that
    /// the operation can go on by.
    fn resume(self, reply: Reply) -> (step: Step<Self, Self::Out>)
        requires
            self.prog() is Ask,
            (self.prog()->Ask_1)(reply@) !is Stuck,
        ensures
            runs_as(step, (self.prog()->Ask_1)(reply@)),
    ;
}

} // verus!
