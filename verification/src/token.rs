//! The PKCS#11 vocabulary: handles, classes, attributes, mechanisms, and what
//! a token says when it refuses a call.
use crate::text;
use vstd::prelude::*;
use vstd::string::*;

verus! {

/// Names an object on a token for as long as the session lasts.
#[derive(Clone, Copy, Debug, PartialEq, Eq, Structural)]
pub struct ObjectHandle {
    /// The number the token gave out.
    pub value: u64,
}

/// `CKA_CLASS`.
#[derive(Clone, Copy, Debug, PartialEq, Eq, Structural)]
pub enum ObjectClass {
    /// `CKO_DATA`.
    Data,
    /// `CKO_PUBLIC_KEY`.
    PublicKey,
    /// `CKO_PRIVATE_KEY`.
    PrivateKey,
    /// `CKO_SECRET_KEY`.
    SecretKey,
}

/// `CKA_KEY_TYPE`.
#[derive(Clone, Copy, Debug, PartialEq, Eq, Structural)]
pub enum KeyType {
    /// `CKK_EC`.
    Ec,
    /// `CKK_GENERIC_SECRET`.
    GenericSecret,
}

/// The attributes that the library asks a token to read out.
#[derive(Clone, Copy, Debug, PartialEq, Eq, Structural)]
pub enum AttributeType {
    /// `CKA_EC_POINT`.
    EcPoint,
    /// `CKA_VALUE`.
    Value,
    /// A vendor's own attribute, by its number.
    VendorDefined(u64),
}

/// An attribute with its value.
#[derive(Debug, PartialEq, Eq)]
pub enum Attribute {
    /// `CKA_CLASS`.
    Class(ObjectClass),
    /// `CKA_KEY_TYPE`.
    KeyType(KeyType),
    /// `CKA_TOKEN`.
    Token(bool),
    /// `CKA_PRIVATE`.
    Private(bool),
    /// `CKA_SENSITIVE`.
    Sensitive(bool),
    /// `CKA_EXTRACTABLE`.
    Extractable(bool),
    /// `CKA_SIGN`.
    Sign(bool),
    /// `CKA_DERIVE`.
    Derive(bool),
    /// `CKA_LABEL`.
    Label(Vec<u8>),
    /// `CKA_APPLICATION`.
    Application(Vec<u8>),
    /// `CKA_VALUE`.
    Value(Vec<u8>),
    /// `CKA_EC_PARAMS`.
    EcParams(Vec<u8>),
    /// `CKA_EC_POINT`.
    EcPoint(Vec<u8>),
    /// A vendor's own attribute, by its number.
    VendorDefined(u64, Vec<u8>),
    /// An attribute that the library neither sets nor reads, by its number.
    Other(u64),
}

/// What an [`Attribute`] says.
pub enum AttributeView {
    Class(ObjectClass),
    KeyType(KeyType),
    Token(bool),
    Private(bool),
    Sensitive(bool),
    Extractable(bool),
    Sign(bool),
    Derive(bool),
    Label(Seq<u8>),
    Application(Seq<u8>),
    Value(Seq<u8>),
    EcParams(Seq<u8>),
    EcPoint(Seq<u8>),
    VendorDefined(u64, Seq<u8>),
    Other(u64),
}

impl View for Attribute {
    type V = AttributeView;

    open spec fn view(&self) -> AttributeView {
        match *self {
            Attribute::Class(c) => AttributeView::Class(c),
            Attribute::KeyType(k) => AttributeView::KeyType(k),
            Attribute::Token(b) => AttributeView::Token(b),
            Attribute::Private(b) => AttributeView::Private(b),
            Attribute::Sensitive(b) => AttributeView::Sensitive(b),
            Attribute::Extractable(b) => AttributeView::Extractable(b),
            Attribute::Sign(b) => AttributeView::Sign(b),
            Attribute::Derive(b) => AttributeView::Derive(b),
            Attribute::Label(v) => AttributeView::Label(v@),
            Attribute::Application(v) => AttributeView::Application(v@),
            Attribute::Value(v) => AttributeView::Value(v@),
            Attribute::EcParams(v) => AttributeView::EcParams(v@),
            Attribute::EcPoint(v) => AttributeView::EcPoint(v@),
            Attribute::VendorDefined(t, v) => AttributeView::VendorDefined(t, v@),
            Attribute::Other(t) => AttributeView::Other(t),
        }
    }
}

/// What a list of attributes says.
pub open spec fn attributes(list: Seq<Attribute>) -> Seq<AttributeView> {
    list.map_values(|a: Attribute| a@)
}

/// A mechanism, by its number.
#[derive(Clone, Copy, Debug, PartialEq, Eq, Structural)]
pub struct MechanismType {
    /// The `CK_MECHANISM_TYPE`.
    pub value: u64,
}

/// `CKM_VENDOR_DEFINED`, the least number a vendor's own mechanism can have.
pub const CKM_VENDOR_DEFINED: u64 = 0x8000_0000;

/// `CKM_ECDSA`.
pub const CKM_ECDSA: u64 = 0x1041;

impl MechanismType {
    /// The mechanism that signs a digest with ECDSA.
    pub fn ecdsa() -> (m: MechanismType)
        ensures
            m.value == CKM_ECDSA,
    {
        MechanismType { value: CKM_ECDSA }
    }

    /// A vendor's own mechanism; `None` for a number that is not set aside for
    /// vendors.
    pub fn new_vendor_defined(value: u64) -> (m: Option<MechanismType>)
        ensures
            m == (if value >= CKM_VENDOR_DEFINED {
                Some(MechanismType { value })
            } else {
                None
            }),
    {
        if value >= CKM_VENDOR_DEFINED {
            Some(MechanismType { value })
        } else {
            None
        }
    }

    /// The mechanism as `Debug` writes it.
    pub open spec fn debug_view(self) -> Seq<char> {
        "MechanismType { val: "@ + text::decimal(self.value as nat) + " }"@
    }

    /// The mechanism as `Debug` writes it.
    pub fn debug_text(&self) -> (t: String)
        ensures
            t@ == self.debug_view(),
    {
        text::join3("MechanismType { val: ", text::decimal_text(self.value).as_str(), " }")
    }
}

/// The refusals of a token that the library tells apart.
#[derive(Clone, Copy, Debug, PartialEq, Eq, Structural)]
pub enum TokenErrorCode {
    /// `CKR_CRYPTOKI_ALREADY_INITIALIZED`.
    CryptokiAlreadyInitialized,
    /// `CKR_USER_ALREADY_LOGGED_IN`.
    UserAlreadyLoggedIn,
    /// Any other.
    Other,
}

/// A call that a token, or the library that drives it, refused.
#[derive(Debug, PartialEq, Eq)]
pub struct TokenError {
    /// Which refusal it is.
    pub code: TokenErrorCode,
    /// The refusal in words.
    pub message: String,
}

/// What a [`TokenError`] says.
pub struct TokenErrorView {
    pub code: TokenErrorCode,
    pub message: Seq<char>,
}

impl View for TokenError {
    type V = TokenErrorView;

    open spec fn view(&self) -> TokenErrorView {
        TokenErrorView { code: self.code, message: self.message@ }
    }
}

} // verus!
