//! What can go wrong, and how it is told.
use crate::text;
use crate::token::{TokenError, TokenErrorView};
use vstd::prelude::*;
use vstd::string::*;

verus! {

// ---------------------------------------------------------------------------
// Backend errors
// ---------------------------------------------------------------------------

/// All errors that a vendor backend raises.
#[derive(Debug)]
pub enum HsmBackendError {
    /// The token refused a call.
    Pkcs11(TokenError),
    /// BIP-32 derivation failed (a malformed seed, say).
    Derivation(String),
    /// No key with the requested label is on the token.
    KeyNotFound {
        /// The label that was looked for.
        label: String,
    },
    /// BIP-32 metadata (chain code, depth, fingerprint, index) was missing or
    /// malformed when it was read back.
    MetadataError(String),
}

/// What an [`HsmBackendError`] says.
pub enum HsmBackendErrorView {
    Pkcs11(TokenErrorView),
    Derivation(Seq<char>),
    KeyNotFound { label: Seq<char> },
    MetadataError(Seq<char>),
}

impl View for HsmBackendError {
    type V = HsmBackendErrorView;

    open spec fn view(&self) -> HsmBackendErrorView {
        match *self {
            HsmBackendError::Pkcs11(e) => HsmBackendErrorView::Pkcs11(e@),
            HsmBackendError::Derivation(r) => HsmBackendErrorView::Derivation(r@),
            HsmBackendError::KeyNotFound { label } => HsmBackendErrorView::KeyNotFound {
                label: label@,
            },
            HsmBackendError::MetadataError(r) => HsmBackendErrorView::MetadataError(r@),
        }
    }
}

impl HsmBackendErrorView {
    /// The error in words.
    pub open spec fn text(self) -> Seq<char> {
        match self {
            HsmBackendErrorView::Pkcs11(e) => "PKCS#11 error: "@ + e.message,
            HsmBackendErrorView::Derivation(r) => "BIP-32 derivation error: "@ + r,
            HsmBackendErrorView::KeyNotFound { label } => "key not found: "@ + label,
            HsmBackendErrorView::MetadataError(r) => "BIP-32 metadata error: "@ + r,
        }
    }
}

impl HsmBackendError {
    /// The error in words.
    pub fn to_string(&self) -> (t: String)
        ensures
            t@ == self@.text(),
    {
        match self {
            HsmBackendError::Pkcs11(e) => text::join2("PKCS#11 error: ", e.message.as_str()),
            HsmBackendError::Derivation(r) => text::join2("BIP-32 derivation error: ", r.as_str()),
            HsmBackendError::KeyNotFound { label } => text::join2(
                "key not found: ",
                label.as_str(),
            ),
            HsmBackendError::MetadataError(r) => text::join2("BIP-32 metadata error: ", r.as_str()),
        }
    }
}

// ---------------------------------------------------------------------------
// Library errors
// ---------------------------------------------------------------------------

/// All errors that the library raises.
#[derive(Debug)]
pub enum Pkcs11Error {
    /// The PKCS#11 library at the configured path did not load.
    LibraryLoad {
        /// The path.
        path: String,
        /// Why.
        source: TokenError,
    },
    /// The PKCS#11 module did not initialize.
    Initialize(TokenError),
    /// No slot is the requested one.
    SlotNotFound(String),
    /// The configured slot has no initialized token.
    NoToken(String),
    /// Login as the user failed.
    LoginFailed(TokenError),
    /// The token refused a call.
    Pkcs11(TokenError),
    /// A mechanism that is needed is not there.
    MechanismUnsupported(&'static str),
    /// The active strategy, or the HSM, does not derive child keys.
    DerivationUnsupported {
        /// The strategy's name.
        strategy: &'static str,
        /// Why it failed.
        reason: String,
    },
    /// An object that should be on the token is not there.
    ObjectNotFound(String),
    /// More than one object matched a query that should have one answer.
    Ambiguous {
        /// What was looked for.
        query: String,
        /// How many objects matched.
        count: usize,
    },
    /// A configuration value is invalid.
    InvalidConfig(String),
    /// The policy on the token forbids the operation.
    PolicyViolation(String),
    /// A secp256k1 value is invalid.
    Secp256k1(String),
    /// A bitcoin value is invalid.
    Bitcoin(String),
    /// Bytes did not encode or decode.
    Serialization(String),
    /// An environment variable is missing or invalid.
    Env {
        /// The variable's name.
        var: &'static str,
        /// What is wrong with it.
        reason: String,
    },
    /// Any other failure.
    Backend(String),
    /// The vendor backend failed.
    HsmBackend(HsmBackendError),
}

/// What a [`Pkcs11Error`] says.
pub enum Pkcs11ErrorView {
    LibraryLoad { path: Seq<char>, source: TokenErrorView },
    Initialize(TokenErrorView),
    SlotNotFound(Seq<char>),
    NoToken(Seq<char>),
    LoginFailed(TokenErrorView),
    Pkcs11(TokenErrorView),
    MechanismUnsupported(Seq<char>),
    DerivationUnsupported { strategy: Seq<char>, reason: Seq<char> },
    ObjectNotFound(Seq<char>),
    Ambiguous { query: Seq<char>, count: nat },
    InvalidConfig(Seq<char>),
    PolicyViolation(Seq<char>),
    Secp256k1(Seq<char>),
    Bitcoin(Seq<char>),
    Serialization(Seq<char>),
    Env { var: Seq<char>, reason: Seq<char> },
    Backend(Seq<char>),
    HsmBackend(HsmBackendErrorView),
}

impl View for Pkcs11Error {
    type V = Pkcs11ErrorView;

    open spec fn view(&self) -> Pkcs11ErrorView {
        match *self {
            Pkcs11Error::LibraryLoad { path, source } => Pkcs11ErrorView::LibraryLoad {
                path: path@,
                source: source@,
            },
            Pkcs11Error::Initialize(e) => Pkcs11ErrorView::Initialize(e@),
            Pkcs11Error::SlotNotFound(t) => Pkcs11ErrorView::SlotNotFound(t@),
            Pkcs11Error::NoToken(t) => Pkcs11ErrorView::NoToken(t@),
            Pkcs11Error::LoginFailed(e) => Pkcs11ErrorView::LoginFailed(e@),
            Pkcs11Error::Pkcs11(e) => Pkcs11ErrorView::Pkcs11(e@),
            Pkcs11Error::MechanismUnsupported(m) => Pkcs11ErrorView::MechanismUnsupported(m@),
            Pkcs11Error::DerivationUnsupported { strategy, reason } => {
                Pkcs11ErrorView::DerivationUnsupported { strategy: strategy@, reason: reason@ }
            },
            Pkcs11Error::ObjectNotFound(t) => Pkcs11ErrorView::ObjectNotFound(t@),
            Pkcs11Error::Ambiguous { query, count } => Pkcs11ErrorView::Ambiguous {
                query: query@,
                count: count as nat,
            },
            Pkcs11Error::InvalidConfig(t) => Pkcs11ErrorView::InvalidConfig(t@),
            Pkcs11Error::PolicyViolation(t) => Pkcs11ErrorView::PolicyViolation(t@),
            Pkcs11Error::Secp256k1(t) => Pkcs11ErrorView::Secp256k1(t@),
            Pkcs11Error::Bitcoin(t) => Pkcs11ErrorView::Bitcoin(t@),
            Pkcs11Error::Serialization(t) => Pkcs11ErrorView::Serialization(t@),
            Pkcs11Error::Env { var, reason } => Pkcs11ErrorView::Env {
                var: var@,
                reason: reason@,
            },
            Pkcs11Error::Backend(t) => Pkcs11ErrorView::Backend(t@),
            Pkcs11Error::HsmBackend(e) => Pkcs11ErrorView::HsmBackend(e@),
        }
    }
}

impl Pkcs11ErrorView {
    /// The error in words.
    pub open spec fn text(self) -> Seq<char> {
        match self {
            Pkcs11ErrorView::LibraryLoad { path, source } => {
                "failed to load PKCS#11 library at "@ + path + ": "@ + source.message
            },
            Pkcs11ErrorView::Initialize(e) => "PKCS#11 initialize failed: "@ + e.message,
            Pkcs11ErrorView::SlotNotFound(t) => "PKCS#11 slot not found: "@ + t,
            Pkcs11ErrorView::NoToken(t) => "PKCS#11 slot "@ + t + " has no initialized token"@,
            Pkcs11ErrorView::LoginFailed(e) => "PKCS#11 login failed: "@ + e.message,
            Pkcs11ErrorView::Pkcs11(e) => "PKCS#11 error: "@ + e.message,
            Pkcs11ErrorView::MechanismUnsupported(m) => {
                "PKCS#11 mechanism "@ + m + " not supported by this token"@
            },
            Pkcs11ErrorView::DerivationUnsupported { strategy, reason } => {
                "BIP-32 derivation unsupported by "@ + strategy + ": "@ + reason
            },
            Pkcs11ErrorView::ObjectNotFound(t) => "PKCS#11 object not found: "@ + t,
            Pkcs11ErrorView::Ambiguous { query, count } => {
                "PKCS#11 found "@ + text::decimal(count) + " objects matching "@ + query
                    + " (expected exactly 1)"@
            },
            Pkcs11ErrorView::InvalidConfig(t) => "invalid PKCS#11 configuration: "@ + t,
            Pkcs11ErrorView::PolicyViolation(t) => "HSM policy violation: "@ + t,
            Pkcs11ErrorView::Secp256k1(t) => "secp256k1 error: "@ + t,
            Pkcs11ErrorView::Bitcoin(t) => "bitcoin error: "@ + t,
            Pkcs11ErrorView::Serialization(t) => "serialization error: "@ + t,
            Pkcs11ErrorView::Env { var, reason } => {
                "environment variable "@ + var + " missing or invalid: "@ + reason
            },
            Pkcs11ErrorView::Backend(t) => "backend error: "@ + t,
            Pkcs11ErrorView::HsmBackend(e) => e.text(),
        }
    }
}

impl Pkcs11Error {
    /// The error in words.
    pub fn to_string(&self) -> (t: String)
        ensures
            t@ == self@.text(),
    {
        match self {
            Pkcs11Error::LibraryLoad { path, source } => text::join4(
                "failed to load PKCS#11 library at ",
                path.as_str(),
                ": ",
                source.message.as_str(),
            ),
            Pkcs11Error::Initialize(e) => text::join2(
                "PKCS#11 initialize failed: ",
                e.message.as_str(),
            ),
            Pkcs11Error::SlotNotFound(t) => text::join2("PKCS#11 slot not found: ", t.as_str()),
            Pkcs11Error::NoToken(t) => text::join3(
                "PKCS#11 slot ",
                t.as_str(),
                " has no initialized token",
            ),
            Pkcs11Error::LoginFailed(e) => text::join2(
                "PKCS#11 login failed: ",
                e.message.as_str(),
            ),
            Pkcs11Error::Pkcs11(e) => text::join2("PKCS#11 error: ", e.message.as_str()),
            Pkcs11Error::MechanismUnsupported(m) => text::join3(
                "PKCS#11 mechanism ",
                m,
                " not supported by this token",
            ),
            Pkcs11Error::DerivationUnsupported { strategy, reason } => text::join4(
                "BIP-32 derivation unsupported by ",
                strategy,
                ": ",
                reason.as_str(),
            ),
            Pkcs11Error::ObjectNotFound(t) => text::join2("PKCS#11 object not found: ", t.as_str()),
            Pkcs11Error::Ambiguous { query, count } => text::join5(
                "PKCS#11 found ",
                text::decimal_text(*count as u64).as_str(),
                " objects matching ",
                query.as_str(),
                " (expected exactly 1)",
            ),
            Pkcs11Error::InvalidConfig(t) => text::join2(
                "invalid PKCS#11 configuration: ",
                t.as_str(),
            ),
            Pkcs11Error::PolicyViolation(t) => text::join2("HSM policy violation: ", t.as_str()),
            Pkcs11Error::Secp256k1(t) => text::join2("secp256k1 error: ", t.as_str()),
            Pkcs11Error::Bitcoin(t) => text::join2("bitcoin error: ", t.as_str()),
            Pkcs11Error::Serialization(t) => text::join2("serialization error: ", t.as_str()),
            Pkcs11Error::Env { var, reason } => text::join4(
                "environment variable ",
                var,
                " missing or invalid: ",
                reason.as_str(),
            ),
            Pkcs11Error::Backend(t) => text::join2("backend error: ", t.as_str()),
            Pkcs11Error::HsmBackend(e) => e.to_string(),
        }
    }
}

impl From<HsmBackendError> for Pkcs11Error {
    fn from(e: HsmBackendError) -> (r: Pkcs11Error) {
        Pkcs11Error::HsmBackend(e)
    }
}

impl vstd::std_specs::convert::FromSpecImpl<HsmBackendError> for Pkcs11Error {
    open spec fn obeys_from_spec() -> bool {
        true
    }

    open spec fn from_spec(e: HsmBackendError) -> Pkcs11Error {
        Pkcs11Error::HsmBackend(e)
    }
}

// ---------------------------------------------------------------------------
// What a wallet is told
// ---------------------------------------------------------------------------

/// A failure as a federation's signing coordinator takes it.
#[derive(Debug)]
pub enum SignerError {
    /// The signer refused on account of a rule.
    PolicyViolation {
        /// Which signer.
        id: String,
        /// Which rule.
        rule: String,
    },
    /// Signing failed.
    SigningFailed {
        /// Which signer.
        id: String,
        /// Why.
        reason: String,
    },
    /// Any other failure.
    Backend(String),
}

/// What a [`SignerError`] says.
pub enum SignerErrorView {
    PolicyViolation { id: Seq<char>, rule: Seq<char> },
    SigningFailed { id: Seq<char>, reason: Seq<char> },
    Backend(Seq<char>),
}

impl View for SignerError {
    type V = SignerErrorView;

    open spec fn view(&self) -> SignerErrorView {
        match *self {
            SignerError::PolicyViolation { id, rule } => SignerErrorView::PolicyViolation {
                id: id@,
                rule: rule@,
            },
            SignerError::SigningFailed { id, reason } => SignerErrorView::SigningFailed {
                id: id@,
                reason: reason@,
            },
            SignerError::Backend(t) => SignerErrorView::Backend(t@),
        }
    }
}

impl Pkcs11ErrorView {
    /// How the error reaches a signing coordinator: a policy violation and a
    /// failed derivation stay what they are, under the id `pkcs11`, and all
    /// else is a backend failure in words.
    pub open spec fn signer_error(self) -> SignerErrorView {
        match self {
            Pkcs11ErrorView::PolicyViolation(rule) => SignerErrorView::PolicyViolation {
                id: "pkcs11"@,
                rule,
            },
            Pkcs11ErrorView::DerivationUnsupported { strategy, reason } => {
                SignerErrorView::SigningFailed {
                    id: "pkcs11"@,
                    reason: strategy + ": "@ + reason,
                }
            },
            Pkcs11ErrorView::HsmBackend(HsmBackendErrorView::Derivation(reason)) => {
                SignerErrorView::SigningFailed { id: "pkcs11"@, reason }
            },
            other => SignerErrorView::Backend(other.text()),
        }
    }
}

/// How `e` reaches a signing coordinator.
pub fn signer_error(e: Pkcs11Error) -> (s: SignerError)
    ensures
        s@ == e@.signer_error(),
{
    match e {
        Pkcs11Error::PolicyViolation(rule) => SignerError::PolicyViolation {
            id: "pkcs11".to_owned(),
            rule,
        },
        Pkcs11Error::DerivationUnsupported { strategy, reason } => SignerError::SigningFailed {
            id: "pkcs11".to_owned(),
            reason: text::join3(strategy, ": ", reason.as_str()),
        },
        Pkcs11Error::HsmBackend(HsmBackendError::Derivation(reason)) => {
            SignerError::SigningFailed { id: "pkcs11".to_owned(), reason }
        },
        other => SignerError::Backend(other.to_string()),
    }
}

impl From<Pkcs11Error> for SignerError {
    fn from(e: Pkcs11Error) -> (s: SignerError)
        ensures
            s@ == e@.signer_error(),
    {
        signer_error(e)
    }
}

impl vstd::std_specs::convert::FromSpecImpl<Pkcs11Error> for SignerError {
    open spec fn obeys_from_spec() -> bool {
        false
    }

    open spec fn from_spec(e: Pkcs11Error) -> SignerError {
        arbitrary()
    }
}

} // verus!
