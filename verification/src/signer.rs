//! A signer whose key is in an HSM.
//!
//! A signer comes about in two ways. In a key ceremony,
//! [`Pkcs11Signer::derive_from_seed`] derives its key on the token; later on,
//! [`Pkcs11Signer::load`] finds a key that is there. Either way the token is
//! the one that knows the chain code and the rest of the BIP-32 metadata.
use crate::bip32::{ChildNumber, DerivationPath, Fingerprint, Network, Xpub, XpubView};
use crate::derivation::{
    DescriptorKeyView, DescriptorOrigin, DescriptorOriginView, DescriptorPublicKey, Wildcard,
};
use crate::elements;
use crate::elements::{Pset, PsetError, SignPset};
use crate::error::{Pkcs11Error, Pkcs11ErrorView, SignerError, SignerErrorView};
use crate::key_ops;
use crate::key_ops::{FindKey, LoadedKey};
use crate::policy;
use crate::policy::{LoadPolicy, MinimalHsmPolicy};
use crate::program;
use crate::program::{
    Machine, Operation, Prog, Reply, ReplyView, Request,
    RequestView, Step,
};
use crate::psbt::Psbt;
use crate::session;
use crate::session::ReadTokenLabel;
use crate::signing::{SigningKey, SigningKeyView};
use crate::store;
use crate::store::WriteData;
use crate::text;
use crate::token::ObjectHandle;
use crate::transaction;
use crate::transaction::SignTransaction;
use vstd::prelude::*;
use vstd::string::*;

verus! {

// ---------------------------------------------------------------------------
// What a signer can do
// ---------------------------------------------------------------------------

/// How a signer is reached.
#[derive(Clone, Copy, Debug, PartialEq, Eq, Structural)]
pub enum TransportType {
    /// Through PKCS#11.
    Pkcs11,
}

/// What a signer can do.
#[derive(Debug)]
pub struct SignerCapabilities {
    /// It signs confidential transactions.
    pub blind_signing: bool,
    /// It signs for Taproot.
    pub taproot: bool,
    /// It takes part in MuSig2.
    pub musig2: bool,
    /// How it is reached.
    pub transports: Vec<TransportType>,
}

/// What [`SignerCapabilities`] says.
pub struct CapabilitiesView {
    pub blind_signing: bool,
    pub taproot: bool,
    pub musig2: bool,
    pub transports: Seq<TransportType>,
}

impl View for SignerCapabilities {
    type V = CapabilitiesView;

    open spec fn view(&self) -> CapabilitiesView {
        CapabilitiesView {
            blind_signing: self.blind_signing,
            taproot: self.taproot,
            musig2: self.musig2,
            transports: self.transports@,
        }
    }
}

/// Who signs.
#[derive(Clone, Copy, Debug, PartialEq, Eq, Structural)]
pub enum SignerType {
    /// A signer that is called.
    Software,
    /// A signer that a person carries the transaction to.
    External,
}

/// A network of Elements.
#[derive(Clone, Copy, Debug, PartialEq, Eq, Structural)]
pub enum ElementsNetworkId {
    /// Liquid.
    Liquid,
    /// Liquid's test network.
    LiquidTestnet,
    /// A local network.
    ElementsRegtest,
}

/// A network.
#[derive(Clone, Copy, Debug, PartialEq, Eq, Structural)]
pub enum NetworkType {
    /// Of bitcoin.
    Bitcoin(Network),
    /// Of Elements.
    Elements(ElementsNetworkId),
}

/// How a signer is.
#[derive(Debug)]
pub struct SignerHealth {
    /// It answers.
    pub reachable: bool,
    /// What it calls itself.
    pub firmware_version: Option<String>,
}

/// What a [`SignerHealth`] says.
pub struct HealthView {
    pub reachable: bool,
    pub firmware_version: Option<Seq<char>>,
}

impl View for SignerHealth {
    type V = HealthView;

    open spec fn view(&self) -> HealthView {
        HealthView {
            reachable: self.reachable,
            firmware_version: crate::environment::text_view(self.firmware_version),
        }
    }
}

/// What a signer is made with, besides its key.
#[derive(Clone, Copy, Debug)]
pub struct SignerOptions {
    /// Signing for Elements is built in.
    pub elements: bool,
    /// The backend has a Taproot signer.
    pub taproot: bool,
}

// ---------------------------------------------------------------------------
// The signer
// ---------------------------------------------------------------------------

/// A signer whose key is in an HSM.
#[derive(Debug)]
pub struct Pkcs11Signer {
    label: String,
    id: String,
    fingerprint: Fingerprint,
    derivation_path: DerivationPath,
    xpub: Xpub,
    network: Network,
    capabilities: SignerCapabilities,
    descriptor_key: DescriptorPublicKey,
    elements: bool,
    loaded: LoadedKey,
}

/// What a [`Pkcs11Signer`] is.
pub struct SignerView {
    pub label: Seq<char>,
    pub id: Seq<char>,
    pub fingerprint: Seq<u8>,
    pub derivation_path: Seq<ChildNumber>,
    pub xpub: XpubView,
    pub network: Network,
    pub capabilities: CapabilitiesView,
    pub descriptor_key: DescriptorKeyView,
    pub elements: bool,
    pub key: ObjectHandle,
}

impl View for Pkcs11Signer {
    type V = SignerView;

    closed spec fn view(&self) -> SignerView {
        SignerView {
            label: self.label@,
            id: self.id@,
            fingerprint: self.fingerprint@,
            derivation_path: self.derivation_path@,
            xpub: self.xpub@,
            network: self.network,
            capabilities: self.capabilities@,
            descriptor_key: self.descriptor_key@,
            elements: self.elements,
            key: self.loaded.private_key,
        }
    }
}

/// The key that a signer puts into a federation's descriptor: the children of
/// the normal child `0` of its extended key, of which wallets derive addresses
/// on their own.
pub open spec fn federation_key(
    xpub: XpubView,
    fingerprint: Seq<u8>,
    path: Seq<ChildNumber>,
) -> DescriptorKeyView {
    DescriptorKeyView::XPub {
        origin: DescriptorOriginView { fingerprint, path },
        xkey: xpub,
        derivation_path: seq![ChildNumber::Normal { index: 0 }],
        wildcard: Wildcard::Unhardened,
    }
}

fn build_descriptor_key(xpub: &Xpub, fingerprint: Fingerprint, path: &DerivationPath) -> (k:
    DescriptorPublicKey)
    ensures
        k@ == federation_key(xpub@, fingerprint@, path@),
{
    let segments = vec![ChildNumber::Normal { index: 0 }];
    assert(segments@ =~= seq![ChildNumber::Normal { index: 0 }]);
    DescriptorPublicKey::XPub {
        origin: DescriptorOrigin { fingerprint, path: path.clone() },
        xkey: *xpub,
        derivation_path: DerivationPath { segments },
        wildcard: Wildcard::Unhardened,
    }
}

/// The signer that these parts make. Its id is its master fingerprint in
/// hexadecimal.
pub open spec fn signer_of(
    label: Seq<char>,
    key: ObjectHandle,
    xpub: XpubView,
    fingerprint: Seq<u8>,
    path: Seq<ChildNumber>,
    network: Network,
    options: SignerOptions,
) -> SignerView {
    SignerView {
        label,
        id: text::hex(fingerprint),
        fingerprint,
        derivation_path: path,
        xpub,
        network,
        capabilities: CapabilitiesView {
            blind_signing: options.elements,
            taproot: options.taproot,
            musig2: false,
            transports: seq![TransportType::Pkcs11],
        },
        descriptor_key: federation_key(xpub, fingerprint, path),
        elements: options.elements,
        key,
    }
}

impl Pkcs11Signer {
    fn from_loaded(
        label: String,
        loaded: LoadedKey,
        xpub: Xpub,
        fingerprint: Fingerprint,
        derivation_path: DerivationPath,
        network: Network,
        options: SignerOptions,
    ) -> (s: Pkcs11Signer)
        ensures
            s@ == signer_of(
                label@,
                loaded.private_key,
                xpub@,
                fingerprint@,
                derivation_path@,
                network,
                options,
            ),
    {
        let descriptor_key = build_descriptor_key(&xpub, fingerprint, &derivation_path);
        let transports = vec![TransportType::Pkcs11];
        assert(transports@ =~= seq![TransportType::Pkcs11]);
        let id = text::hex_text(fingerprint.bytes.as_slice());
        Pkcs11Signer {
            label,
            id,
            fingerprint,
            derivation_path,
            xpub,
            network,
            capabilities: SignerCapabilities {
                blind_signing: options.elements,
                taproot: options.taproot,
                musig2: false,
                transports,
            },
            descriptor_key,
            elements: options.elements,
            loaded,
        }
    }
}

// ---------------------------------------------------------------------------
// The key ceremony
// ---------------------------------------------------------------------------

/// What a signer is to be.
pub struct SignerProfile {
    /// The signer's label.
    pub label: String,
    /// The path to its federation key.
    pub derivation_path: DerivationPath,
    /// The network it is for.
    pub network: Network,
    /// What it is made with.
    pub options: SignerOptions,
}

/// What a [`SignerProfile`] says.
pub struct ProfileView {
    pub label: Seq<char>,
    pub derivation_path: Seq<ChildNumber>,
    pub network: Network,
    pub options: SignerOptions,
}

impl View for SignerProfile {
    type V = ProfileView;

    open spec fn view(&self) -> ProfileView {
        ProfileView {
            label: self.label@,
            derivation_path: self.derivation_path@,
            network: self.network,
            options: self.options,
        }
    }
}

impl ProfileView {
    /// The signer with this key.
    pub open spec fn signer(self, key: ObjectHandle, xpub: XpubView, fingerprint: Seq<u8>) -> SignerView {
        signer_of(
            self.label,
            key,
            xpub,
            fingerprint,
            self.derivation_path,
            self.network,
            self.options,
        )
    }
}

/// Reads the federation key's extended public key, and has the signer.
pub open spec fn read_federation(profile: ProfileView, fingerprint: Seq<u8>, key: ObjectHandle) -> Prog<
    Result<SignerView, Pkcs11ErrorView>,
> {
    Prog::Ask(
        RequestView::ReadXpub(key),
        |r: ReplyView|
            match r {
                ReplyView::Xpub(Ok(xpub)) => Prog::Done(Ok(profile.signer(key, xpub, fingerprint))),
                ReplyView::Xpub(Err(e)) => Prog::Done(Err(Pkcs11ErrorView::HsmBackend(e))),
                _ => Prog::Stuck,
            },
    )
}

/// Derives the federation key from the master key.
pub open spec fn derive_federation(
    profile: ProfileView,
    fingerprint: Seq<u8>,
    master: ObjectHandle,
) -> Prog<Result<SignerView, Pkcs11ErrorView>> {
    Prog::Ask(
        RequestView::DerivePath(master, profile.derivation_path),
        |r: ReplyView|
            match r {
                ReplyView::Derived(Ok(key)) => read_federation(profile, fingerprint, key),
                ReplyView::Derived(Err(e)) => Prog::Done(Err(Pkcs11ErrorView::HsmBackend(e))),
                _ => Prog::Stuck,
            },
    )
}

/// Derives a signer's key on the token: the master key, under the label of the
/// signer's private key, then the federation key from it.
pub open spec fn signer_derivation(profile: ProfileView, seed: Seq<u8>) -> Prog<
    Result<SignerView, Pkcs11ErrorView>,
> {
    Prog::Ask(
        RequestView::DeriveMasterKey(
            seed,
            key_ops::namespaced(profile.label, key_ops::PRIV_SUFFIX@),
        ),
        |r: ReplyView|
            match r {
                ReplyView::Master(Ok(master)) => derive_federation(
                    profile,
                    master.fingerprint,
                    master.key_handle,
                ),
                ReplyView::Master(Err(e)) => Prog::Done(Err(Pkcs11ErrorView::HsmBackend(e))),
                _ => Prog::Stuck,
            },
    )
}

/// What a result says.
pub open spec fn signer_result(r: Result<Pkcs11Signer, Pkcs11Error>) -> Result<
    SignerView,
    Pkcs11ErrorView,
> {
    match r {
        Ok(s) => Ok(s@),
        Err(e) => Err(e@),
    }
}

enum DeriveSignerState {
    Master(Ghost<Seq<u8>>),
    Path(Fingerprint, ObjectHandle),
    Xpub(Fingerprint, ObjectHandle),
}

/// Derives a signer's key.
pub struct DeriveSigner {
    profile: SignerProfile,
    state: DeriveSignerState,
}

impl Operation for DeriveSigner {
    type Out = Result<Pkcs11Signer, Pkcs11Error>;

    type OutView = Result<SignerView, Pkcs11ErrorView>;

    closed spec fn prog(self) -> Prog<Result<SignerView, Pkcs11ErrorView>> {
        match self.state {
            DeriveSignerState::Master(seed) => signer_derivation(self.profile@, seed@),
            DeriveSignerState::Path(fingerprint, master) => derive_federation(
                self.profile@,
                fingerprint@,
                master,
            ),
            DeriveSignerState::Xpub(fingerprint, key) => read_federation(
                self.profile@,
                fingerprint@,
                key,
            ),
        }
    }

    open spec fn out_view(out: Result<Pkcs11Signer, Pkcs11Error>) -> Result<
        SignerView,
        Pkcs11ErrorView,
    > {
        signer_result(out)
    }
}

impl DeriveSigner {
    fn federation(profile: SignerProfile, fingerprint: Fingerprint, master: ObjectHandle) -> (step:
        Step<DeriveSigner, Result<Pkcs11Signer, Pkcs11Error>>)
        ensures
            program::runs_as(step, derive_federation(profile@, fingerprint@, master)),
            step is Ask,
    {
        let path = profile.derivation_path.clone();
        Step::Ask(
            Request::DerivePath(master, path),
            DeriveSigner { profile, state: DeriveSignerState::Path(fingerprint, master) },
        )
    }
}

impl Machine for DeriveSigner {
    fn resume(self, reply: Reply) -> (step: Step<DeriveSigner, Result<Pkcs11Signer, Pkcs11Error>>) {
        let profile = self.profile;
        match self.state {
            DeriveSignerState::Master(_) => match reply {
                Reply::Master(Ok(master)) => DeriveSigner::federation(
                    profile,
                    master.fingerprint,
                    master.key_handle,
                ),
                Reply::Master(Err(e)) => Step::Done(Err(Pkcs11Error::from(e))),
                _ => vstd::pervasive::unreached(),
            },
            DeriveSignerState::Path(fingerprint, _) => match reply {
                Reply::Derived(Ok(key)) => Step::Ask(
                    Request::ReadXpub(key),
                    DeriveSigner { profile, state: DeriveSignerState::Xpub(fingerprint, key) },
                ),
                Reply::Derived(Err(e)) => Step::Done(Err(Pkcs11Error::from(e))),
                _ => vstd::pervasive::unreached(),
            },
            DeriveSignerState::Xpub(fingerprint, key) => match reply {
                Reply::Xpub(Ok(xpub)) => Step::Done(
                    Ok(
                        Pkcs11Signer::from_loaded(
                            profile.label,
                            LoadedKey { private_key: key },
                            xpub,
                            fingerprint,
                            profile.derivation_path,
                            profile.network,
                            profile.options,
                        ),
                    ),
                ),
                Reply::Xpub(Err(e)) => Step::Done(Err(Pkcs11Error::from(e))),
                _ => vstd::pervasive::unreached(),
            },
        }
    }
}

// ---------------------------------------------------------------------------
// Loading
// ---------------------------------------------------------------------------

/// Reads the master fingerprint from the master key, then derives the federation
/// key from it again.
pub open spec fn read_loaded(profile: ProfileView, key: ObjectHandle) -> Prog<
    Result<SignerView, Pkcs11ErrorView>,
> {
    Prog::Ask(
        RequestView::MasterFingerprint(key),
        |r: ReplyView|
            match r {
                ReplyView::MasterFingerprint(Ok(fingerprint)) => derive_federation(
                    profile,
                    fingerprint,
                    key,
                ),
                ReplyView::MasterFingerprint(Err(e)) => Prog::Done(
                    Err(Pkcs11ErrorView::HsmBackend(e)),
                ),
                _ => Prog::Stuck,
            },
    )
}

/// What follows once the key is looked up.
pub open spec fn then_read_loaded(profile: ProfileView) -> spec_fn(
    Result<Option<LoadedKey>, Pkcs11ErrorView>,
) -> Prog<Result<SignerView, Pkcs11ErrorView>> {
    |d: Result<Option<LoadedKey>, Pkcs11ErrorView>|
        match d {
            Ok(Some(loaded)) => read_loaded(profile, loaded.private_key),
            Ok(None) => Prog::Done(
                Err(Pkcs11ErrorView::ObjectNotFound("key with label "@ + profile.label)),
            ),
            Err(e) => Prog::Done(Err(e)),
        }
}

/// Finds the master key of a signer on the token, and has the signer that was
/// derived from it.
pub open spec fn signer_loading(profile: ProfileView) -> Prog<
    Result<SignerView, Pkcs11ErrorView>,
> {
    key_ops::find_key(profile.label).bind(then_read_loaded(profile))
}

enum LoadSignerState {
    Finding(SignerProfile, FindKey),
    Fingerprint(SignerProfile, LoadedKey),
    Deriving(DeriveSigner),
}

/// Finds a signer's key.
pub struct LoadSigner {
    state: LoadSignerState,
}

impl Operation for LoadSigner {
    type Out = Result<Pkcs11Signer, Pkcs11Error>;

    type OutView = Result<SignerView, Pkcs11ErrorView>;

    closed spec fn prog(self) -> Prog<Result<SignerView, Pkcs11ErrorView>> {
        match self.state {
            LoadSignerState::Finding(profile, m) if m.prog() is Ask => m.prog().bind(
                then_read_loaded(profile@),
            ),
            LoadSignerState::Fingerprint(profile, loaded) => read_loaded(
                profile@,
                loaded.private_key,
            ),
            LoadSignerState::Deriving(m) => m.prog(),
            _ => Prog::Stuck,
        }
    }

    open spec fn out_view(out: Result<Pkcs11Signer, Pkcs11Error>) -> Result<
        SignerView,
        Pkcs11ErrorView,
    > {
        signer_result(out)
    }
}

impl LoadSigner {
    fn finding(
        profile: SignerProfile,
        step: Step<FindKey, Result<Option<LoadedKey>, Pkcs11Error>>,
        Ghost(prog): Ghost<Prog<Result<Option<LoadedKey>, Pkcs11ErrorView>>>,
    ) -> (next: Step<LoadSigner, Result<Pkcs11Signer, Pkcs11Error>>)
        requires
            program::runs_as(step, prog),
        ensures
            program::runs_as(next, prog.bind(then_read_loaded(profile@))),
    {
        match step {
            Step::Ask(q, m) => Step::Ask(
                q,
                LoadSigner { state: LoadSignerState::Finding(profile, m) },
            ),
            Step::Done(Ok(Some(loaded))) => Step::Ask(
                Request::MasterFingerprint(loaded.private_key),
                LoadSigner { state: LoadSignerState::Fingerprint(profile, loaded) },
            ),
            Step::Done(Ok(None)) => Step::Done(
                Err(
                    Pkcs11Error::ObjectNotFound(
                        text::join2("key with label ", profile.label.as_str()),
                    ),
                ),
            ),
            Step::Done(Err(e)) => Step::Done(Err(e)),
        }
    }

    fn deriving(
        step: Step<DeriveSigner, Result<Pkcs11Signer, Pkcs11Error>>,
        Ghost(prog): Ghost<Prog<Result<SignerView, Pkcs11ErrorView>>>,
    ) -> (next: Step<LoadSigner, Result<Pkcs11Signer, Pkcs11Error>>)
        requires
            program::runs_as(step, prog),
        ensures
            program::runs_as(next, prog),
    {
        match step {
            Step::Ask(q, m) => Step::Ask(q, LoadSigner { state: LoadSignerState::Deriving(m) }),
            Step::Done(out) => Step::Done(out),
        }
    }
}

impl Machine for LoadSigner {
    fn resume(self, reply: Reply) -> (step: Step<LoadSigner, Result<Pkcs11Signer, Pkcs11Error>>) {
        match self.state {
            LoadSignerState::Finding(profile, m) => {
                let ghost prog = (m.prog()->Ask_1)(reply@);
                assert(prog.bind(then_read_loaded(profile@)) !is Stuck);
                let step = m.resume(reply);
                LoadSigner::finding(profile, step, Ghost(prog))
            },
            LoadSignerState::Fingerprint(profile, loaded) => match reply {
                Reply::MasterFingerprint(Ok(fingerprint)) => {
                    let master = loaded.private_key;
                    let ghost prog = derive_federation(profile@, fingerprint@, master);
                    let step = DeriveSigner::federation(profile, fingerprint, master);
                    LoadSigner::deriving(step, Ghost(prog))
                },
                Reply::MasterFingerprint(Err(e)) => Step::Done(Err(Pkcs11Error::from(e))),
                _ => vstd::pervasive::unreached(),
            },
            LoadSignerState::Deriving(m) => {
                let ghost prog = (m.prog()->Ask_1)(reply@);
                let step = m.resume(reply);
                LoadSigner::deriving(step, Ghost(prog))
            },
        }
    }
}

impl Pkcs11Signer {
    /// Derives a fresh federation key on the token. The private key never
    /// leaves the token; the seed goes through to the derivation and nowhere
    /// else.
    pub fn derive_from_seed(
        label: &str,
        derivation_path: &DerivationPath,
        network: Network,
        options: SignerOptions,
        seed: &[u8],
    ) -> (step: Step<DeriveSigner, Result<Pkcs11Signer, Pkcs11Error>>)
        ensures
            program::runs_as(
                step,
                signer_derivation(
                    (ProfileView {
                        label: label@,
                        derivation_path: derivation_path@,
                        network,
                        options,
                    }),
                    seed@,
                ),
            ),
    {
        let profile = SignerProfile {
            label: label.to_owned(),
            derivation_path: derivation_path.clone(),
            network,
            options,
        };
        Step::Ask(
            Request::DeriveMasterKey(vstd::slice::slice_to_vec(seed), key_ops::priv_label(label)),
            DeriveSigner { profile, state: DeriveSignerState::Master(Ghost(seed@)) },
        )
    }

    /// Finds the signer that was derived on the token under this label: its master
    /// key has the label, and the federation key is derived from that again along
    /// the path.
    pub fn load(
        label: &str,
        derivation_path: DerivationPath,
        network: Network,
        options: SignerOptions,
    ) -> (step: Step<LoadSigner, Result<Pkcs11Signer, Pkcs11Error>>)
        ensures
            program::runs_as(
                step,
                signer_loading(
                    ProfileView {
                        label: label@,
                        derivation_path: derivation_path@,
                        network,
                        options,
                    },
                ),
            ),
    {
        let profile = SignerProfile { label: label.to_owned(), derivation_path, network, options };
        let ghost prog = key_ops::find_key(label@);
        LoadSigner::finding(profile, key_ops::find_key_by_label(label), Ghost(prog))
    }
}

// ---------------------------------------------------------------------------
// What a wallet asks of a signer
// ---------------------------------------------------------------------------

/// The networks that a signer is for: its own and, where signing for Elements
/// is built in, the Elements network beside it. The key is the same for both.
pub open spec fn networks(network: Network, elements: bool) -> Seq<NetworkType> {
    let own = seq![NetworkType::Bitcoin(network)];
    match (elements, network) {
        (true, Network::Bitcoin) => own.push(NetworkType::Elements(ElementsNetworkId::Liquid)),
        (true, Network::Testnet) => own.push(
            NetworkType::Elements(ElementsNetworkId::LiquidTestnet),
        ),
        (true, Network::Regtest) => own.push(
            NetworkType::Elements(ElementsNetworkId::ElementsRegtest),
        ),
        _ => own,
    }
}

impl SignerView {
    /// The signer as the plans see it.
    pub open spec fn signing_key(self) -> SigningKeyView {
        SigningKeyView {
            label: self.label,
            fingerprint: self.fingerprint,
            path: self.derivation_path,
            network: self.network,
            handle: self.key,
            taproot: self.capabilities.taproot,
        }
    }
}

impl Pkcs11Signer {
    /// The key that the signer puts into a federation's descriptor.
    pub fn descriptor_key(&self) -> (k: &DescriptorPublicKey)
        ensures
            k@ == self@.descriptor_key,
    {
        &self.descriptor_key
    }

    /// The signer's id.
    pub fn id(&self) -> (id: String)
        ensures
            id@ == self@.id,
    {
        self.id.clone()
    }

    /// The signer's label.
    pub fn label(&self) -> (l: Option<&str>)
        ensures
            l is Some,
            l->Some_0@ == self@.label,
    {
        Some(self.label.as_str())
    }

    /// The extended public key at the federation path.
    pub fn xpub(&self) -> (x: &Xpub)
        ensures
            x@ == self@.xpub,
    {
        &self.xpub
    }

    /// The fingerprint of the master key.
    pub fn fingerprint(&self) -> (f: Fingerprint)
        ensures
            f@ == self@.fingerprint,
    {
        self.fingerprint
    }

    /// The path to the federation key.
    pub fn derivation_path(&self) -> (p: &DerivationPath)
        ensures
            p@ == self@.derivation_path,
    {
        &self.derivation_path
    }

    /// Who signs: the HSM, when it is called.
    pub fn signer_type(&self) -> (t: SignerType)
        ensures
            t == SignerType::Software,
    {
        SignerType::Software
    }

    /// The networks that the signer is for.
    pub fn supported_networks(&self) -> (list: Vec<NetworkType>)
        ensures
            list@ == networks(self@.network, self@.elements),
    {
        let mut list = vec![NetworkType::Bitcoin(self.network)];
        assert(list@ =~= seq![NetworkType::Bitcoin(self.network)]);
        if self.elements {
            match self.network {
                Network::Bitcoin => {
                    list.push(NetworkType::Elements(ElementsNetworkId::Liquid));
                },
                Network::Testnet => {
                    list.push(NetworkType::Elements(ElementsNetworkId::LiquidTestnet));
                },
                Network::Regtest => {
                    list.push(NetworkType::Elements(ElementsNetworkId::ElementsRegtest));
                },
                _ => {},
            }
        }
        list
    }

    /// What the signer can do.
    pub fn capabilities(&self) -> (c: &SignerCapabilities)
        ensures
            c@ == self@.capabilities,
    {
        &self.capabilities
    }

    /// The signer's key on the token.
    pub fn loaded_key(&self) -> (k: LoadedKey)
        ensures
            k.private_key == self@.key,
    {
        self.loaded
    }

    /// Reads the policy that the token holds for the signer.
    pub fn policy(&self) -> (step: Step<LoadPolicy, Result<MinimalHsmPolicy, Pkcs11Error>>)
        ensures
            program::runs_as(step, policy::policy_loading(self@.label)),
    {
        policy::load_policy(self.label.as_str())
    }

    /// Replaces the policy that the token holds for the signer.
    pub fn set_policy(&self, p: &MinimalHsmPolicy) -> (step: Step<
        WriteData,
        Result<(), Pkcs11Error>,
    >)
        ensures
            program::runs_as(
                step,
                policy::policy_saving(self@.label, p@).bind(store::then_forget()),
            ),
    {
        let ghost prog = policy::policy_saving(self@.label, p@);
        WriteData::writing(policy::save_policy(self.label.as_str(), p), Ghost(prog))
    }

    /// Signs the inputs of a transaction that are the signer's.
    pub fn sign_transaction(&self, psbt: Psbt) -> (step: Step<
        SignTransaction,
        (Psbt, Result<(), String>),
    >)
        ensures
            program::runs_as(
                step,
                transaction::transaction_signing(self@.signing_key(), psbt@),
            ),
    {
        let key = SigningKey {
            label: self.label.clone(),
            fingerprint: self.fingerprint,
            path: self.derivation_path.clone(),
            network: self.network,
            handle: self.loaded.private_key,
            taproot: self.capabilities.taproot,
        };
        transaction::sign_transaction(&key, psbt)
    }

    /// Signs the inputs of an Elements transaction that are the signer's. The
    /// result tells how many they are.
    pub fn sign_pset(&self, pset: Pset) -> (step: Step<
        SignPset,
        (Pset, Result<usize, PsetError>),
    >)
        requires
            pset@.well_formed(),
        ensures
            program::runs_as(
                step,
                elements::pset_signing(self@.label, self@.fingerprint, pset@),
            ),
    {
        elements::sign_pset(self.label.as_str(), self.fingerprint, pset)
    }
}

// ---------------------------------------------------------------------------
// Health
// ---------------------------------------------------------------------------

/// What follows once the token's label is read.
pub open spec fn then_health() -> spec_fn(Result<Seq<char>, Pkcs11ErrorView>) -> Prog<
    Result<HealthView, SignerErrorView>,
> {
    |d: Result<Seq<char>, Pkcs11ErrorView>|
        match d {
            Ok(label) => Prog::Done(
                Ok(HealthView { reachable: true, firmware_version: Some("pkcs11/"@ + label) }),
            ),
            Err(e) => Prog::Done(Err(e.signer_error())),
        }
}

/// Asks the token how it is.
pub open spec fn health_checking() -> Prog<Result<HealthView, SignerErrorView>> {
    session::token_label_reading().bind(then_health())
}

/// Asks a token how it is.
pub struct CheckHealth {
    inner: ReadTokenLabel,
}

impl Operation for CheckHealth {
    type Out = Result<SignerHealth, SignerError>;

    type OutView = Result<HealthView, SignerErrorView>;

    closed spec fn prog(self) -> Prog<Result<HealthView, SignerErrorView>> {
        if self.inner.prog() is Ask {
            self.inner.prog().bind(then_health())
        } else {
            Prog::Stuck
        }
    }

    open spec fn out_view(out: Result<SignerHealth, SignerError>) -> Result<
        HealthView,
        SignerErrorView,
    > {
        match out {
            Ok(h) => Ok(h@),
            Err(e) => Err(e@),
        }
    }
}

impl CheckHealth {
    fn reading(
        step: Step<ReadTokenLabel, Result<String, Pkcs11Error>>,
        Ghost(prog): Ghost<Prog<Result<Seq<char>, Pkcs11ErrorView>>>,
    ) -> (next: Step<CheckHealth, Result<SignerHealth, SignerError>>)
        requires
            program::runs_as(step, prog),
        ensures
            program::runs_as(next, prog.bind(then_health())),
    {
        match step {
            Step::Ask(q, inner) => Step::Ask(q, CheckHealth { inner }),
            Step::Done(Ok(label)) => Step::Done(
                Ok(
                    SignerHealth {
                        reachable: true,
                        firmware_version: Some(text::join2("pkcs11/", label.as_str())),
                    },
                ),
            ),
            Step::Done(Err(e)) => Step::Done(Err(crate::error::signer_error(e))),
        }
    }
}

impl Machine for CheckHealth {
    fn resume(self, reply: Reply) -> (step: Step<CheckHealth, Result<SignerHealth, SignerError>>) {
        let ghost prog = (self.inner.prog()->Ask_1)(reply@);
        assert(prog.bind(then_health()) !is Stuck);
        let step = self.inner.resume(reply);
        CheckHealth::reading(step, Ghost(prog))
    }
}

impl Pkcs11Signer {
    /// Asks the token behind the signer how it is.
    pub fn health_check(&self) -> (step: Step<CheckHealth, Result<SignerHealth, SignerError>>)
        ensures
            program::runs_as(step, health_checking()),
    {
        let ghost prog = session::token_label_reading();
        CheckHealth::reading(ReadTokenLabel::start(), Ghost(prog))
    }
}

// ---------------------------------------------------------------------------
// Another kind of network
// ---------------------------------------------------------------------------

/// A signer whose extended public key is stamped for another kind of network.
///
/// A token does not tell the network, so an extended key is read as one of the
/// main network; a federation on another network refuses it as such. The key,
/// the chain code and the rest stay as they are.
#[derive(Debug)]
pub struct NetworkPatchedSigner {
    inner: Pkcs11Signer,
    patched_xpub: Xpub,
}

/// An extended public key stamped for a network.
pub fn patched_xpub(xpub: &Xpub, network: Network) -> (x: Xpub)
    ensures
        x@ == (XpubView { network: network.kind_view(), ..xpub@ }),
{
    let mut patched = *xpub;
    patched.network = network.kind();
    patched
}

impl NetworkPatchedSigner {
    /// The signer inside.
    pub closed spec fn inner_view(self) -> SignerView {
        self.inner@
    }

    /// The extended public key as it is stamped.
    pub closed spec fn xpub_view(self) -> XpubView {
        self.patched_xpub@
    }

    /// Stamps a signer for a network.
    pub fn new(inner: Pkcs11Signer, network: Network) -> (s: NetworkPatchedSigner)
        ensures
            s.inner_view() == inner@,
            s.xpub_view() == (XpubView { network: network.kind_view(), ..inner@.xpub }),
    {
        let patched_xpub = patched_xpub(&inner.xpub, network);
        NetworkPatchedSigner { inner, patched_xpub }
    }

    /// The signer inside.
    pub fn inner(&self) -> (s: &Pkcs11Signer)
        ensures
            s@ == self.inner_view(),
    {
        &self.inner
    }

    /// The extended public key as it is stamped.
    pub fn xpub(&self) -> (x: &Xpub)
        ensures
            x@ == self.xpub_view(),
    {
        &self.patched_xpub
    }

    /// The id of the signer inside.
    pub fn id(&self) -> (id: String)
        ensures
            id@ == self.inner_view().id,
    {
        self.inner.id()
    }

    /// The label of the signer inside.
    pub fn label(&self) -> (l: Option<&str>)
        ensures
            l is Some,
            l->Some_0@ == self.inner_view().label,
    {
        self.inner.label()
    }

    /// The fingerprint of the master key.
    pub fn fingerprint(&self) -> (f: Fingerprint)
        ensures
            f@ == self.inner_view().fingerprint,
    {
        self.inner.fingerprint()
    }

    /// The path to the federation key.
    pub fn derivation_path(&self) -> (p: &DerivationPath)
        ensures
            p@ == self.inner_view().derivation_path,
    {
        self.inner.derivation_path()
    }

    /// Who signs.
    pub fn signer_type(&self) -> (t: SignerType)
        ensures
            t == SignerType::Software,
    {
        self.inner.signer_type()
    }

    /// The networks that the signer inside is for.
    pub fn supported_networks(&self) -> (list: Vec<NetworkType>)
        ensures
            list@ == networks(self.inner_view().network, self.inner_view().elements),
    {
        self.inner.supported_networks()
    }

    /// What the signer inside can do.
    pub fn capabilities(&self) -> (c: &SignerCapabilities)
        ensures
            c@ == self.inner_view().capabilities,
    {
        self.inner.capabilities()
    }

    /// Asks the token behind the signer how it is.
    pub fn health_check(&self) -> (step: Step<CheckHealth, Result<SignerHealth, SignerError>>)
        ensures
            program::runs_as(step, health_checking()),
    {
        self.inner.health_check()
    }
}

} // verus!
