//! Strategies for BIP-32 derivation where the backend does not derive.
//!
//! - [`FixedKey`]: one key per signer, and no derivation.
//! - [`HsmNativeBip32`]: the token's own mechanism, which it has to list.
//! - [`SoftwareTweakDev`]: for development only.
//!
//! A strategy tells what key a signer puts into a federation's descriptor, and
//! signs digests for inputs.
use crate::bip32;
use crate::bip32::{
    ChainCode, ChildNumber, DerivationPath, Fingerprint, NetworkKind, PublicKey, Xpub, XpubView,
};
use crate::ecdsa;
use crate::ecdsa::SignLowS;
use crate::error::{Pkcs11Error, Pkcs11ErrorView};
use crate::program;
use crate::program::{Machine, Operation, Prog, Reply, ReplyView, Request, RequestView, Step};
use crate::text;
use crate::token::{MechanismType, ObjectHandle};
use vstd::prelude::*;
use vstd::string::*;

verus! {

// ---------------------------------------------------------------------------
// Descriptor keys
// ---------------------------------------------------------------------------

/// How the last step of a descriptor key varies.
#[derive(Clone, Copy, Debug, PartialEq, Eq, Structural)]
pub enum Wildcard {
    /// It does not.
    Absent,
    /// Over normal children.
    Unhardened,
    /// Over hardened children.
    Hardened,
}

/// Where a descriptor key comes from: a master key, and a path from it.
#[derive(Debug)]
pub struct DescriptorOrigin {
    /// The fingerprint of the master key.
    pub fingerprint: Fingerprint,
    /// The path from the master key.
    pub path: DerivationPath,
}

/// A key of a descriptor.
#[derive(Debug)]
pub enum DescriptorPublicKey {
    /// One key.
    Single {
        /// Where it comes from.
        origin: DescriptorOrigin,
        /// The key.
        key: PublicKey,
    },
    /// The children of an extended key.
    XPub {
        /// Where the extended key comes from.
        origin: DescriptorOrigin,
        /// The extended key.
        xkey: Xpub,
        /// The path from the extended key.
        derivation_path: DerivationPath,
        /// How the last step varies.
        wildcard: Wildcard,
    },
}

/// What a [`DescriptorOrigin`] says.
pub struct DescriptorOriginView {
    pub fingerprint: Seq<u8>,
    pub path: Seq<ChildNumber>,
}

impl View for DescriptorOrigin {
    type V = DescriptorOriginView;

    open spec fn view(&self) -> DescriptorOriginView {
        DescriptorOriginView { fingerprint: self.fingerprint@, path: self.path@ }
    }
}

/// What a [`DescriptorPublicKey`] says.
pub enum DescriptorKeyView {
    Single { origin: DescriptorOriginView, key: Seq<u8> },
    XPub {
        origin: DescriptorOriginView,
        xkey: XpubView,
        derivation_path: Seq<ChildNumber>,
        wildcard: Wildcard,
    },
}

impl View for DescriptorPublicKey {
    type V = DescriptorKeyView;

    open spec fn view(&self) -> DescriptorKeyView {
        match *self {
            DescriptorPublicKey::Single { origin, key } => DescriptorKeyView::Single {
                origin: origin@,
                key: key@,
            },
            DescriptorPublicKey::XPub { origin, xkey, derivation_path, wildcard } => {
                DescriptorKeyView::XPub {
                    origin: origin@,
                    xkey: xkey@,
                    derivation_path: derivation_path@,
                    wildcard,
                }
            },
        }
    }
}

// ---------------------------------------------------------------------------
// The signer as strategies see it
// ---------------------------------------------------------------------------

/// What a strategy needs to know of a signer.
#[derive(Debug)]
pub struct SignerContext {
    /// The fingerprint of the master key.
    pub fingerprint: Fingerprint,
    /// The path to the federation key.
    pub derivation_path: DerivationPath,
    /// The chain code.
    pub chain_code: ChainCode,
    /// The public key.
    pub public_key: PublicKey,
    /// The private key on the token.
    pub private_key_handle: ObjectHandle,
}

/// What a [`SignerContext`] says.
pub struct SignerContextView {
    pub fingerprint: Seq<u8>,
    pub derivation_path: Seq<ChildNumber>,
    pub chain_code: Seq<u8>,
    pub public_key: Seq<u8>,
    pub private_key_handle: ObjectHandle,
}

impl View for SignerContext {
    type V = SignerContextView;

    open spec fn view(&self) -> SignerContextView {
        SignerContextView {
            fingerprint: self.fingerprint@,
            derivation_path: self.derivation_path@,
            chain_code: self.chain_code@,
            public_key: self.public_key@,
            private_key_handle: self.private_key_handle,
        }
    }
}

impl SignerContextView {
    /// Where the signer's key comes from.
    pub open spec fn origin(self) -> DescriptorOriginView {
        DescriptorOriginView { fingerprint: self.fingerprint, path: self.derivation_path }
    }

    /// The signer's one key.
    pub open spec fn single_key(self) -> DescriptorKeyView {
        DescriptorKeyView::Single { origin: self.origin(), key: self.public_key }
    }

    /// The children of the signer's key. The extended key is put together from
    /// what is known: the depth is the length of the path, of which one byte is
    /// kept, and the parent is not known.
    pub open spec fn extended_key(self) -> DescriptorKeyView {
        DescriptorKeyView::XPub {
            origin: self.origin(),
            xkey: XpubView {
                network: NetworkKind::Test,
                depth: (self.derivation_path.len() % 256) as u8,
                parent_fingerprint: seq![0u8, 0u8, 0u8, 0u8],
                child_number: if self.derivation_path.len() == 0 {
                    ChildNumber::Normal { index: 0 }
                } else {
                    self.derivation_path.last()
                },
                public_key: self.public_key,
                chain_code: self.chain_code,
            },
            derivation_path: Seq::empty(),
            wildcard: Wildcard::Unhardened,
        }
    }
}

fn single_key(ctx: &SignerContext) -> (k: DescriptorPublicKey)
    ensures
        k@ == ctx@.single_key(),
{
    DescriptorPublicKey::Single {
        origin: DescriptorOrigin {
            fingerprint: ctx.fingerprint,
            path: ctx.derivation_path.clone(),
        },
        key: ctx.public_key,
    }
}

fn extended_key(ctx: &SignerContext) -> (k: DescriptorPublicKey)
    ensures
        k@ == ctx@.extended_key(),
{
    let n: usize = ctx.derivation_path.segments.len();
    let child_number = if n == 0 {
        ChildNumber::Normal { index: 0 }
    } else {
        ctx.derivation_path.segments[n - 1]
    };
    let parent = [0u8, 0u8, 0u8, 0u8];
    assert(parent@ =~= seq![0u8, 0u8, 0u8, 0u8]);
    DescriptorPublicKey::XPub {
        origin: DescriptorOrigin {
            fingerprint: ctx.fingerprint,
            path: ctx.derivation_path.clone(),
        },
        xkey: Xpub {
            network: NetworkKind::Test,
            depth: (n % 256) as u8,
            parent_fingerprint: Fingerprint { bytes: parent },
            child_number,
            public_key: ctx.public_key,
            chain_code: ctx.chain_code,
        },
        derivation_path: DerivationPath::empty(),
        wildcard: Wildcard::Unhardened,
    }
}

// ---------------------------------------------------------------------------
// One key
// ---------------------------------------------------------------------------

/// One key per signer, and no derivation.
#[derive(Clone, Copy, Debug, Default)]
pub struct FixedKey;

impl FixedKey {
    /// The strategy's name.
    pub fn name(&self) -> (n: &'static str)
        ensures
            n@ == "FixedKey"@,
    {
        "FixedKey"
    }

    /// The key for the federation's descriptor.
    pub fn descriptor_key(&self, ctx: &SignerContext) -> (res: Result<
        DescriptorPublicKey,
        Pkcs11Error,
    >)
        ensures
            res is Ok,
            res->Ok_0@ == ctx@.single_key(),
    {
        Ok(single_key(ctx))
    }

    /// Signs a digest with the signer's one key, whatever the input's path.
    pub fn sign_input(
        &self,
        ctx: &SignerContext,
        _input_derivation: &DerivationPath,
        sighash: [u8; 32],
    ) -> (step: Step<SignLowS, Result<[u8; 64], Pkcs11Error>>)
        ensures
            program::runs_as(step, ecdsa::low_s_signing(ctx@.private_key_handle, sighash@)),
    {
        ecdsa::sign_with_low_s(ctx.private_key_handle, sighash)
    }
}

// ---------------------------------------------------------------------------
// The token's own mechanism
// ---------------------------------------------------------------------------

/// The token's own derivation.
#[derive(Clone, Copy, Debug)]
pub struct HsmNativeBip32 {
    mechanism: MechanismType,
}

/// Why a mechanism that the token does not list is no use.
pub open spec fn not_advertised(mechanism: MechanismType) -> Pkcs11ErrorView {
    Pkcs11ErrorView::DerivationUnsupported {
        strategy: "HsmNativeBip32"@,
        reason: "mechanism "@ + mechanism.debug_view() + " not advertised by token"@,
    }
}

/// Why a mechanism that the token does list is no use for signing yet.
pub open spec fn not_implemented(mechanism: MechanismType, path: Seq<ChildNumber>) -> Pkcs11ErrorView {
    Pkcs11ErrorView::DerivationUnsupported {
        strategy: "HsmNativeBip32"@,
        reason: "vendor-specific derivation invocation for mechanism "@ + mechanism.debug_view()
            + " at path "@ + bip32::path_text(path)
            + " not implemented in v1; configure FixedKey or supply a custom strategy"@,
    }
}

/// Asks whether the token lists the mechanism; `then` if it does.
pub open spec fn if_supported<A>(
    mechanism: MechanismType,
    then_out: Result<A, Pkcs11ErrorView>,
) -> Prog<Result<A, Pkcs11ErrorView>> {
    Prog::Ask(
        RequestView::MechanismList,
        |r: ReplyView|
            match r {
                ReplyView::Mechanisms(Ok(list)) => if list.contains(mechanism) {
                    Prog::Done(then_out)
                } else {
                    Prog::Done(Err(not_advertised(mechanism)))
                },
                ReplyView::Mechanisms(Err(e)) => Prog::Done(Err(Pkcs11ErrorView::Pkcs11(e))),
                _ => Prog::Stuck,
            },
    )
}

fn lists(list: &Vec<MechanismType>, mechanism: MechanismType) -> (b: bool)
    ensures
        b == list@.contains(mechanism),
{
    let n: usize = list.len();
    let mut i: usize = 0;
    while i < n
        invariant
            i <= n,
            n == list@.len(),
            forall|j: int| 0 <= j < i ==> list@[j] != mechanism,
        decreases n - i,
    {
        if list[i] == mechanism {
            return true;
        }
        i = i + 1;
    }
    false
}

fn not_advertised_error(mechanism: MechanismType) -> (e: Pkcs11Error)
    ensures
        e@ == not_advertised(mechanism),
{
    Pkcs11Error::DerivationUnsupported {
        strategy: "HsmNativeBip32",
        reason: text::join3(
            "mechanism ",
            mechanism.debug_text().as_str(),
            " not advertised by token",
        ),
    }
}

/// Asks for the descriptor key of the token's own derivation.
pub struct NativeDescriptorKey {
    mechanism: MechanismType,
    key: DescriptorPublicKey,
}

/// What a result says.
pub open spec fn descriptor_result(r: Result<DescriptorPublicKey, Pkcs11Error>) -> Result<
    DescriptorKeyView,
    Pkcs11ErrorView,
> {
    match r {
        Ok(k) => Ok(k@),
        Err(e) => Err(e@),
    }
}

impl Operation for NativeDescriptorKey {
    type Out = Result<DescriptorPublicKey, Pkcs11Error>;

    type OutView = Result<DescriptorKeyView, Pkcs11ErrorView>;

    closed spec fn prog(self) -> Prog<Result<DescriptorKeyView, Pkcs11ErrorView>> {
        if_supported(self.mechanism, Ok(self.key@))
    }

    open spec fn out_view(out: Result<DescriptorPublicKey, Pkcs11Error>) -> Result<
        DescriptorKeyView,
        Pkcs11ErrorView,
    > {
        descriptor_result(out)
    }
}

impl Machine for NativeDescriptorKey {
    fn resume(self, reply: Reply) -> (step: Step<
        NativeDescriptorKey,
        Result<DescriptorPublicKey, Pkcs11Error>,
    >) {
        match reply {
            Reply::Mechanisms(Ok(list)) => if lists(&list, self.mechanism) {
                Step::Done(Ok(self.key))
            } else {
                Step::Done(Err(not_advertised_error(self.mechanism)))
            },
            Reply::Mechanisms(Err(e)) => Step::Done(Err(Pkcs11Error::Pkcs11(e))),
            _ => vstd::pervasive::unreached(),
        }
    }
}

/// Asks for a signature of the token's own derivation.
pub struct NativeSign {
    mechanism: MechanismType,
    path: DerivationPath,
}

impl Operation for NativeSign {
    type Out = Result<[u8; 64], Pkcs11Error>;

    type OutView = Result<Seq<u8>, Pkcs11ErrorView>;

    closed spec fn prog(self) -> Prog<Result<Seq<u8>, Pkcs11ErrorView>> {
        if_supported(self.mechanism, Err(not_implemented(self.mechanism, self.path@)))
    }

    open spec fn out_view(out: Result<[u8; 64], Pkcs11Error>) -> Result<Seq<u8>, Pkcs11ErrorView> {
        ecdsa::signature_view(out)
    }
}

impl Machine for NativeSign {
    fn resume(self, reply: Reply) -> (step: Step<NativeSign, Result<[u8; 64], Pkcs11Error>>) {
        match reply {
            Reply::Mechanisms(Ok(list)) => if lists(&list, self.mechanism) {
                let reason = text::join5(
                    "vendor-specific derivation invocation for mechanism ",
                    self.mechanism.debug_text().as_str(),
                    " at path ",
                    self.path.to_string().as_str(),
                    " not implemented in v1; configure FixedKey or supply a custom strategy",
                );
                Step::Done(
                    Err(Pkcs11Error::DerivationUnsupported { strategy: "HsmNativeBip32", reason }),
                )
            } else {
                Step::Done(Err(not_advertised_error(self.mechanism)))
            },
            Reply::Mechanisms(Err(e)) => Step::Done(Err(Pkcs11Error::Pkcs11(e))),
            _ => vstd::pervasive::unreached(),
        }
    }
}

impl HsmNativeBip32 {
    /// The mechanism that derives.
    pub closed spec fn mechanism_view(self) -> MechanismType {
        self.mechanism
    }

    /// A strategy that derives with this mechanism.
    pub fn new(mechanism: MechanismType) -> (s: HsmNativeBip32)
        ensures
            s.mechanism_view() == mechanism,
    {
        HsmNativeBip32 { mechanism }
    }

    /// The strategy's name.
    pub fn name(&self) -> (n: &'static str)
        ensures
            n@ == "HsmNativeBip32"@,
    {
        "HsmNativeBip32"
    }

    /// The key for the federation's descriptor, if the token lists the
    /// mechanism.
    pub fn descriptor_key(&self, ctx: &SignerContext) -> (step: Step<
        NativeDescriptorKey,
        Result<DescriptorPublicKey, Pkcs11Error>,
    >)
        ensures
            program::runs_as(
                step,
                if_supported(self.mechanism_view(), Ok(ctx@.extended_key())),
            ),
    {
        Step::Ask(
            Request::MechanismList,
            NativeDescriptorKey { mechanism: self.mechanism, key: extended_key(ctx) },
        )
    }

    /// Refuses to sign: how a vendor derives is not known here, and the master
    /// key is no stand-in for a child.
    pub fn sign_input(
        &self,
        _ctx: &SignerContext,
        input_derivation: &DerivationPath,
        _sighash: [u8; 32],
    ) -> (step: Step<NativeSign, Result<[u8; 64], Pkcs11Error>>)
        ensures
            program::runs_as(
                step,
                if_supported(
                    self.mechanism_view(),
                    Err(not_implemented(self.mechanism_view(), input_derivation@)),
                ),
            ),
    {
        Step::Ask(
            Request::MechanismList,
            NativeSign { mechanism: self.mechanism, path: input_derivation.clone() },
        )
    }
}

// ---------------------------------------------------------------------------
// Development
// ---------------------------------------------------------------------------

/// Derivation in software, for development only. It puts an extended key into
/// the descriptor, and signs with the master key.
#[derive(Clone, Copy, Debug, Default)]
pub struct SoftwareTweakDev;

impl SoftwareTweakDev {
    /// The strategy's name.
    pub fn name(&self) -> (n: &'static str)
        ensures
            n@ == "SoftwareTweakDev"@,
    {
        "SoftwareTweakDev"
    }

    /// The key for the federation's descriptor.
    pub fn descriptor_key(&self, ctx: &SignerContext) -> (res: Result<
        DescriptorPublicKey,
        Pkcs11Error,
    >)
        ensures
            res is Ok,
            res->Ok_0@ == ctx@.extended_key(),
    {
        Ok(extended_key(ctx))
    }

    /// Signs a digest with the master key.
    pub fn sign_input(
        &self,
        ctx: &SignerContext,
        _input_derivation: &DerivationPath,
        sighash: [u8; 32],
    ) -> (step: Step<SignLowS, Result<[u8; 64], Pkcs11Error>>)
        ensures
            program::runs_as(step, ecdsa::low_s_signing(ctx@.private_key_handle, sighash@)),
    {
        ecdsa::sign_with_low_s(ctx.private_key_handle, sighash)
    }
}

} // verus!
