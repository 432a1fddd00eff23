//! Which library, which token, which key.
use crate::bip32::DerivationPath;
use crate::environment;
use crate::environment::Environment;
use crate::error::{Pkcs11Error, Pkcs11ErrorView};
use crate::text;
use vstd::prelude::*;
use vstd::string::*;

verus! {

/// How a caller names a slot of the PKCS#11 module.
#[derive(Debug)]
pub enum SlotIdentifier {
    /// By the label of its token, which stays the same when slots are
    /// reordered.
    Label(String),
    /// By its number.
    SlotId(u64),
}

/// What a [`SlotIdentifier`] says.
pub enum SlotView {
    Label(Seq<char>),
    SlotId(u64),
}

impl View for SlotIdentifier {
    type V = SlotView;

    open spec fn view(&self) -> SlotView {
        match *self {
            SlotIdentifier::Label(l) => SlotView::Label(l@),
            SlotIdentifier::SlotId(id) => SlotView::SlotId(id),
        }
    }
}

impl SlotView {
    /// The slot in words.
    pub open spec fn text(self) -> Seq<char> {
        match self {
            SlotView::Label(l) => "label="@ + l,
            SlotView::SlotId(id) => "slot_id="@ + text::decimal(id as nat),
        }
    }
}

impl Clone for SlotIdentifier {
    fn clone(&self) -> (s: SlotIdentifier)
        ensures
            s@ == self@,
    {
        match self {
            SlotIdentifier::Label(l) => SlotIdentifier::Label(l.clone()),
            SlotIdentifier::SlotId(id) => SlotIdentifier::SlotId(*id),
        }
    }
}

impl SlotIdentifier {
    /// The slot with this token label.
    pub fn label(label: &str) -> (s: SlotIdentifier)
        ensures
            s@ == SlotView::Label(label@),
    {
        SlotIdentifier::Label(label.to_owned())
    }

    /// The slot with this number.
    pub fn slot_id(id: u64) -> (s: SlotIdentifier)
        ensures
            s@ == SlotView::SlotId(id),
    {
        SlotIdentifier::SlotId(id)
    }

    /// The slot in words.
    pub fn to_string(&self) -> (t: String)
        ensures
            t@ == self@.text(),
    {
        match self {
            SlotIdentifier::Label(l) => text::join2("label=", l.as_str()),
            SlotIdentifier::SlotId(id) => text::join2(
                "slot_id=",
                text::decimal_text(*id).as_str(),
            ),
        }
    }

    /// Whether the two name a slot alike.
    pub fn same(&self, other: &SlotIdentifier) -> (b: bool)
        ensures
            b == (self@ == other@),
    {
        match (self, other) {
            (SlotIdentifier::Label(a), SlotIdentifier::Label(b)) => text::same_text(
                a.as_str(),
                b.as_str(),
            ),
            (SlotIdentifier::SlotId(a), SlotIdentifier::SlotId(b)) => *a == *b,
            _ => false,
        }
    }
}

/// A user PIN. It has no `Debug`, so that it does not end up in a log.
pub struct Pin {
    /// The PIN.
    pub text: String,
}

impl View for Pin {
    type V = Seq<char>;

    open spec fn view(&self) -> Seq<char> {
        self.text@
    }
}

/// What it takes to open a session and to derive in it.
pub struct Pkcs11Config<B> {
    /// Where the PKCS#11 library is.
    pub library_path: String,
    /// Which token.
    pub slot: SlotIdentifier,
    /// The user PIN.
    pub pin: Pin,
    /// The path to the signer's federation key.
    pub derivation_path: DerivationPath,
    /// The vendor backend.
    pub backend: B,
}

/// The path of the PKCS#11 library: what `PKCS11_LIB` says, else what
/// `SOFTHSM2_LIB` says.
pub open spec fn library_path(env: Seq<environment::VariableView>) -> Result<
    Seq<char>,
    Pkcs11ErrorView,
> {
    match (environment::lookup(env, "PKCS11_LIB"@), environment::lookup(env, "SOFTHSM2_LIB"@)) {
        (Some(p), _) => Ok(p),
        (None, Some(p)) => Ok(p),
        (None, None) => Err(
            Pkcs11ErrorView::Env {
                var: "PKCS11_LIB"@,
                reason: "neither PKCS11_LIB nor SOFTHSM2_LIB is set"@,
            },
        ),
    }
}

impl<B> Pkcs11Config<B> {
    /// A configuration of its parts.
    pub fn new(
        library_path: String,
        slot: SlotIdentifier,
        pin: Pin,
        derivation_path: DerivationPath,
        backend: B,
    ) -> (c: Pkcs11Config<B>)
        ensures
            c.library_path@ == library_path@,
            c.slot@ == slot@,
            c.pin@ == pin@,
            c.derivation_path@ == derivation_path@,
            c.backend == backend,
    {
        Pkcs11Config { library_path, slot, pin, derivation_path, backend }
    }

    /// The path of the PKCS#11 library, from the environment.
    pub fn library_path_from_env(env: &Environment) -> (res: Result<String, Pkcs11Error>)
        ensures
            match res {
                Ok(p) => library_path(env@) == Ok::<Seq<char>, Pkcs11ErrorView>(p@),
                Err(e) => library_path(env@) == Err::<Seq<char>, Pkcs11ErrorView>(e@),
            },
    {
        match env.var("PKCS11_LIB") {
            Some(p) => Ok(p),
            None => match env.var("SOFTHSM2_LIB") {
                Some(p) => Ok(p),
                None => Err(
                    Pkcs11Error::Env {
                        var: "PKCS11_LIB",
                        reason: "neither PKCS11_LIB nor SOFTHSM2_LIB is set".to_owned(),
                    },
                ),
            },
        }
    }
}

} // verus!
