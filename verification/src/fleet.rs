//! Fleets: the cosigners that make up a federation.
//!
//! Each cosigner is a token to open a session with, a derivation path, and a
//! backend; the cosigners of one fleet may be of different vendors. A vendor
//! registers, under a tag, a function that makes the backend for a member.
//!
//! A fleet is described by environment variables. `EMVAULT_FLEET_NETWORK` is
//! `bitcoin`, `testnet` (if not set), `signet` or `regtest`. The members are
//! counted from zero, up to the first without a vendor:
//!
//! - `EMVAULT_FLEET_<i>_VENDOR`: the tag.
//! - `EMVAULT_FLEET_<i>_LABEL`: the signer's label.
//! - `EMVAULT_FLEET_<i>_LIB`: where the PKCS#11 library is.
//! - `EMVAULT_FLEET_<i>_SLOT`: the token's label, or `_SLOT_ID`: the slot.
//! - `EMVAULT_FLEET_<i>_PIN`: the user PIN.
//! - `EMVAULT_FLEET_<i>_PATH`: the derivation path.
//! - `EMVAULT_FLEET_<i>_KEY`: `shim` (if not set) for a seed that the backend
//!   has, `seed:<hex>` for this seed, or `load` for a key that is there.
use crate::bip32;
use crate::bip32::{ChildNumber, DerivationPath, Network};
use crate::config::{Pin, Pkcs11Config, SlotIdentifier, SlotView};
use crate::environment;
use crate::environment::{Environment, VariableView};
use crate::error::{Pkcs11Error, Pkcs11ErrorView};
use crate::program;
use crate::program::{Machine, Operation, Prog, Reply, ReplyView, Request, RequestView, Step};
use crate::session;
use crate::session::{OpenSession, Pkcs11Session};
use crate::signer;
use crate::signer::{
    DeriveSigner, LoadSigner, Pkcs11Signer, ProfileView, SignerOptions, SignerView,
};
use crate::text;
use vstd::prelude::*;
use vstd::string::*;

verus! {

// ---------------------------------------------------------------------------
// Seeds in hexadecimal
// ---------------------------------------------------------------------------

/// Whether a text has an even number of bytes.
pub open spec fn even_bytes(t: Seq<char>) -> bool {
    vstd::utf8::encode_utf8(t).len() % 2 == 0
}

/// Whether every character is a hexadecimal digit, in either case.
pub open spec fn all_hex(t: Seq<char>) -> bool {
    forall|i: int| 0 <= i < t.len() ==> text::digit_value(#[trigger] t[i], 16) is Some
}

/// The byte that two hexadecimal digits write, the high one first.
pub open spec fn hex_pair(high: char, low: char) -> u8 {
    (text::digit_value(high, 16)->Some_0 * 16 + text::digit_value(low, 16)->Some_0) as u8
}

/// The bytes that a text writes in hexadecimal, white space at its ends aside:
/// one for each two digits. Everything but an even number of digits is an error.
pub open spec fn hex_bytes(s: Seq<char>) -> Result<Seq<u8>, Seq<char>> {
    let t = text::trimmed(s);
    if !even_bytes(t) {
        Err("odd-length hex"@)
    } else if !all_hex(t) {
        Err("invalid digit found in string"@)
    } else {
        Ok(Seq::new(t.len() / 2, |k: int| hex_pair(t[2 * k], t[2 * k + 1])))
    }
}

fn hex_digit(c: char) -> (d: Option<u8>)
    ensures
        match d {
            Some(v) => text::digit_value(c, 16) == Some(v as nat) && v < 16,
            None => text::digit_value(c, 16) is None,
        },
{
    let n: u32 = c as u32;
    if 0x30 <= n && n <= 0x39 {
        Some((n - 0x30) as u8)
    } else if 0x61 <= n && n <= 0x66 {
        Some((n - 0x61 + 10) as u8)
    } else if 0x41 <= n && n <= 0x46 {
        Some((n - 0x41 + 10) as u8)
    } else {
        None
    }
}

/// Hexadecimal digits take one byte each.
proof fn lemma_hex_width(t: Seq<char>)
    requires
        all_hex(t),
    ensures
        vstd::utf8::encode_utf8(t).len() == t.len(),
{
    assert(vstd::utf8::is_ascii_chars(t)) by {
        assert forall|i: int| 0 <= i < t.len() implies 0 <= #[trigger] t[i] as nat && (t[i] as nat)
            < 128 by {
            assert(text::digit_value(t[i], 16) is Some);
        }
    }
    vstd::utf8::is_ascii_chars_encode_utf8(t);
}

/// Reads bytes in hexadecimal.
pub fn decode_hex(s: &str) -> (res: Result<Vec<u8>, String>)
    ensures
        match res {
            Ok(v) => hex_bytes(s@) == Ok::<Seq<u8>, Seq<char>>(v@),
            Err(e) => hex_bytes(s@) == Err::<Seq<u8>, Seq<char>>(e@),
        },
{
    let t = s.trim();
    if t.as_bytes().len() % 2 != 0 {
        return Err("odd-length hex".to_owned());
    }
    let n: usize = t.unicode_len();
    let mut digits: Vec<u8> = Vec::new();
    while digits.len() < n
        invariant
            digits@.len() <= n,
            n == t@.len(),
            t@ == text::trimmed(s@),
            even_bytes(t@),
            forall|j: int|
                0 <= j < digits@.len() ==> #[trigger] digits@[j] < 16 && text::digit_value(t@[j], 16)
                    == Some(digits@[j] as nat),
        decreases n - digits@.len(),
    {
        let i: usize = digits.len();
        match hex_digit(t.get_char(i)) {
            None => {
                assert(!all_hex(t@)) by {
                    assert(text::digit_value(t@[i as int], 16) is None);
                }
                return Err("invalid digit found in string".to_owned());
            },
            Some(d) => {
                digits.push(d);
            },
        }
    }
    assert(all_hex(t@)) by {
        assert forall|i: int| 0 <= i < t@.len() implies text::digit_value(
            #[trigger] t@[i],
            16,
        ) is Some by {
            assert(digits@[i] < 16);
        }
    }
    proof {
        lemma_hex_width(t@);
    }
    let mut bytes: Vec<u8> = Vec::new();
    let mut i: usize = 0;
    while i < n
        invariant
            i <= n,
            n % 2 == 0,
            n == t@.len(),
            n == digits@.len(),
            i == 2 * bytes@.len(),
            forall|j: int|
                0 <= j < n ==> #[trigger] digits@[j] < 16 && text::digit_value(t@[j], 16) == Some(
                    digits@[j] as nat,
                ),
            forall|k: int|
                0 <= k < bytes@.len() ==> #[trigger] bytes@[k] == hex_pair(
                    t@[2 * k],
                    t@[2 * k + 1],
                ),
        decreases n - i,
    {
        assert(digits@[i as int] < 16 && digits@[i + 1] < 16);
        bytes.push(digits[i] * 16 + digits[i + 1]);
        i = i + 2;
    }
    assert(bytes@ =~= hex_bytes(s@)->Ok_0);
    Ok(bytes)
}

// ---------------------------------------------------------------------------
// Reading the environment
// ---------------------------------------------------------------------------

/// The name of a member's variable.
pub open spec fn member_key(i: nat, field: Seq<char>) -> Seq<char> {
    "EMVAULT_FLEET_"@ + text::decimal(i) + "_"@ + field
}

/// The name of a member's variable.
pub fn fkey(i: usize, field: &str) -> (k: String)
    ensures
        k@ == member_key(i as nat, field@),
{
    text::join4("EMVAULT_FLEET_", text::decimal_text(i as u64).as_str(), "_", field)
}

/// The value of a variable if it is set and not empty, else the default.
pub open spec fn value_or(env: Seq<VariableView>, name: Seq<char>, default: Seq<char>) -> Seq<char> {
    match environment::lookup_filled(env, name) {
        Some(v) => v,
        None => default,
    }
}

/// The value of a variable if it is set and not empty, else the default.
pub fn env_or(env: &Environment, k: &str, default: &str) -> (v: String)
    ensures
        v@ == value_or(env@, k@, default@),
{
    match env.opt(k) {
        Some(v) => v,
        None => default.to_owned(),
    }
}

/// An invalid configuration.
pub open spec fn invalid<A>(reason: Seq<char>) -> Result<A, Pkcs11ErrorView> {
    Err(Pkcs11ErrorView::InvalidConfig(reason))
}

/// The value of a member's variable, which has to be set and not empty.
pub open spec fn required(env: Seq<VariableView>, i: nat, field: Seq<char>) -> Result<
    Seq<char>,
    Pkcs11ErrorView,
> {
    match environment::lookup_filled(env, member_key(i, field)) {
        Some(v) => Ok(v),
        None => invalid("missing "@ + member_key(i, field)),
    }
}

/// What a result says.
pub open spec fn text_result(r: Result<String, Pkcs11Error>) -> Result<Seq<char>, Pkcs11ErrorView> {
    match r {
        Ok(t) => Ok(t@),
        Err(e) => Err(e@),
    }
}

/// The value of a member's variable, which has to be set and not empty.
pub fn req(env: &Environment, i: usize, field: &str) -> (res: Result<String, Pkcs11Error>)
    ensures
        text_result(res) == required(env@, i as nat, field@),
{
    let k = fkey(i, field);
    match env.opt(k.as_str()) {
        Some(v) => Ok(v),
        None => Err(Pkcs11Error::InvalidConfig(text::join2("missing ", k.as_str()))),
    }
}

/// A member's slot: by label, or else by number.
pub open spec fn member_slot(env: Seq<VariableView>, i: nat) -> Result<SlotView, Pkcs11ErrorView> {
    match (
        environment::lookup_filled(env, member_key(i, "SLOT"@)),
        environment::lookup_filled(env, member_key(i, "SLOT_ID"@)),
    ) {
        (Some(label), _) => Ok(SlotView::Label(label)),
        (None, Some(id)) => match text::u64_value(id) {
            Ok(n) => Ok(SlotView::SlotId(n)),
            Err(e) => invalid(member_key(i, "SLOT_ID"@) + ": "@ + e),
        },
        (None, None) => invalid(
            member_key(i, "SLOT"@) + ": need _SLOT (label) or _SLOT_ID (numeric)"@,
        ),
    }
}

/// A member's slot.
pub fn parse_slot(env: &Environment, i: usize) -> (res: Result<SlotIdentifier, Pkcs11Error>)
    ensures
        match res {
            Ok(s) => member_slot(env@, i as nat) == Ok::<SlotView, Pkcs11ErrorView>(s@),
            Err(e) => member_slot(env@, i as nat) == Err::<SlotView, Pkcs11ErrorView>(e@),
        },
{
    let by_label = fkey(i, "SLOT");
    if let Some(label) = env.opt(by_label.as_str()) {
        return Ok(SlotIdentifier::Label(label));
    }
    let by_number = fkey(i, "SLOT_ID");
    match env.opt(by_number.as_str()) {
        Some(id) => match text::parse_u64(id.as_str()) {
            Ok(n) => Ok(SlotIdentifier::slot_id(n)),
            Err(e) => Err(
                Pkcs11Error::InvalidConfig(text::join3(by_number.as_str(), ": ", e.as_str())),
            ),
        },
        None => Err(
            Pkcs11Error::InvalidConfig(
                text::join2(by_label.as_str(), ": need _SLOT (label) or _SLOT_ID (numeric)"),
            ),
        ),
    }
}

/// How a member comes by its key.
pub enum KeyInit {
    /// It is derived from this seed; from one that the backend has, if this is
    /// empty.
    DeriveFromSeed(Vec<u8>),
    /// It is on the token.
    Load,
}

/// What a [`KeyInit`] says.
pub enum KeyInitView {
    DeriveFromSeed(Seq<u8>),
    Load,
}

impl View for KeyInit {
    type V = KeyInitView;

    open spec fn view(&self) -> KeyInitView {
        match *self {
            KeyInit::DeriveFromSeed(v) => KeyInitView::DeriveFromSeed(v@),
            KeyInit::Load => KeyInitView::Load,
        }
    }
}

/// How a text tells that a member comes by its key: `load`, `shim` or nothing in
/// any case, or `seed:` and the seed in hexadecimal.
pub open spec fn key_init_value(s: Seq<char>, i: nat) -> Result<KeyInitView, Pkcs11ErrorView> {
    let t = text::trimmed(s);
    if text::ascii_lower(t) == text::ascii_lower("load"@) {
        Ok(KeyInitView::Load)
    } else if t.len() == 0 || text::ascii_lower(t) == text::ascii_lower("shim"@) {
        Ok(KeyInitView::DeriveFromSeed(Seq::empty()))
    } else {
        match text::behind_prefix(t, "seed:"@) {
            Some(hex) => match hex_bytes(hex) {
                Ok(seed) => Ok(KeyInitView::DeriveFromSeed(seed)),
                Err(e) => invalid(member_key(i, "KEY"@) + " seed hex: "@ + e),
            },
            None => invalid(member_key(i, "KEY"@) + ": expected 'shim', 'load', or 'seed:<hex>'"@),
        }
    }
}

/// Reads how a member comes by its key.
pub fn parse_key_init(s: &str, i: usize) -> (res: Result<KeyInit, Pkcs11Error>)
    ensures
        match res {
            Ok(k) => key_init_value(s@, i as nat) == Ok::<KeyInitView, Pkcs11ErrorView>(k@),
            Err(e) => key_init_value(s@, i as nat) == Err::<KeyInitView, Pkcs11ErrorView>(e@),
        },
{
    let t = s.trim();
    if t.eq_ignore_ascii_case("load") {
        return Ok(KeyInit::Load);
    }
    if t.is_empty() || t.eq_ignore_ascii_case("shim") {
        return Ok(KeyInit::DeriveFromSeed(Vec::new()));
    }
    if let Some(hex) = text::strip_text_prefix(t, "seed:") {
        return match decode_hex(hex) {
            Ok(seed) => Ok(KeyInit::DeriveFromSeed(seed)),
            Err(e) => Err(
                Pkcs11Error::InvalidConfig(
                    text::join3(fkey(i, "KEY").as_str(), " seed hex: ", e.as_str()),
                ),
            ),
        };
    }
    Err(
        Pkcs11Error::InvalidConfig(
            text::join2(
                fkey(i, "KEY").as_str(),
                ": expected 'shim', 'load', or 'seed:<hex>'",
            ),
        ),
    )
}

/// The network that a text names.
pub open spec fn network_value(s: Seq<char>) -> Result<Network, Pkcs11ErrorView> {
    let t = text::ascii_lower(text::trimmed(s));
    if t == "bitcoin"@ || t == "mainnet"@ {
        Ok(Network::Bitcoin)
    } else if t == "testnet"@ {
        Ok(Network::Testnet)
    } else if t == "signet"@ {
        Ok(Network::Signet)
    } else if t == "regtest"@ {
        Ok(Network::Regtest)
    } else {
        invalid("unknown network '"@ + t + "' (bitcoin|testnet|signet|regtest)"@)
    }
}

/// The network that a text names.
pub fn parse_network(s: &str) -> (res: Result<Network, Pkcs11Error>)
    ensures
        match res {
            Ok(n) => network_value(s@) == Ok::<Network, Pkcs11ErrorView>(n),
            Err(e) => network_value(s@) == Err::<Network, Pkcs11ErrorView>(e@),
        },
{
    let t = s.trim().to_ascii_lowercase();
    let name = t.as_str();
    if text::same_text(name, "bitcoin") || text::same_text(name, "mainnet") {
        Ok(Network::Bitcoin)
    } else if text::same_text(name, "testnet") {
        Ok(Network::Testnet)
    } else if text::same_text(name, "signet") {
        Ok(Network::Signet)
    } else if text::same_text(name, "regtest") {
        Ok(Network::Regtest)
    } else {
        Err(
            Pkcs11Error::InvalidConfig(
                text::join3("unknown network '", name, "' (bitcoin|testnet|signet|regtest)"),
            ),
        )
    }
}

// ---------------------------------------------------------------------------
// Members
// ---------------------------------------------------------------------------

/// A member as the environment describes it.
pub struct MemberEnv {
    /// The vendor's tag.
    pub vendor: String,
    /// The signer's label.
    pub label: String,
    /// Where the PKCS#11 library is.
    pub library_path: String,
    /// Which token.
    pub slot: SlotIdentifier,
    /// The user PIN.
    pub pin: Pin,
    /// The derivation path.
    pub derivation_path: DerivationPath,
    /// The network of the fleet.
    pub network: Network,
    /// How the member comes by its key.
    pub key_init: KeyInit,
}

/// What a [`MemberEnv`] says.
pub struct MemberView {
    pub vendor: Seq<char>,
    pub label: Seq<char>,
    pub library_path: Seq<char>,
    pub slot: SlotView,
    pub pin: Seq<char>,
    pub derivation_path: Seq<ChildNumber>,
    pub network: Network,
    pub key_init: KeyInitView,
}

impl View for MemberEnv {
    type V = MemberView;

    open spec fn view(&self) -> MemberView {
        MemberView {
            vendor: self.vendor@,
            label: self.label@,
            library_path: self.library_path@,
            slot: self.slot@,
            pin: self.pin@,
            derivation_path: self.derivation_path@,
            network: self.network,
            key_init: self.key_init@,
        }
    }
}

/// A member's derivation path.
pub open spec fn member_path(env: Seq<VariableView>, i: nat) -> Result<
    Seq<ChildNumber>,
    Pkcs11ErrorView,
> {
    match required(env, i, "PATH"@) {
        Err(e) => Err(e),
        Ok(t) => match bip32::path_value(t) {
            Ok(p) => Ok(p),
            Err(e) => invalid(member_key(i, "PATH"@) + ": "@ + e),
        },
    }
}

/// The text that tells how a member comes by its key.
pub open spec fn key_text(env: Seq<VariableView>, i: nat) -> Seq<char> {
    value_or(env, member_key(i, "KEY"@), "shim"@)
}

/// The parts of a member before its key: label, library, slot, PIN and path, in
/// the order in which they are asked for.
pub open spec fn member_parts(env: Seq<VariableView>, i: nat) -> Result<
    (Seq<char>, Seq<char>, SlotView, Seq<char>, Seq<ChildNumber>),
    Pkcs11ErrorView,
> {
    match (
        required(env, i, "LABEL"@),
        required(env, i, "LIB"@),
        member_slot(env, i),
        required(env, i, "PIN"@),
        member_path(env, i),
    ) {
        (Err(e), _, _, _, _) => Err(e),
        (_, Err(e), _, _, _) => Err(e),
        (_, _, Err(e), _, _) => Err(e),
        (_, _, _, Err(e), _) => Err(e),
        (_, _, _, _, Err(e)) => Err(e),
        (Ok(label), Ok(library), Ok(slot), Ok(pin), Ok(path)) => Ok(
            (label, library, slot, pin, path),
        ),
    }
}

/// A member that has a vendor, as the environment describes it.
pub open spec fn member_value(
    env: Seq<VariableView>,
    network: Network,
    i: nat,
    vendor: Seq<char>,
) -> Result<MemberView, Pkcs11ErrorView> {
    match member_parts(env, i) {
        Err(e) => Err(e),
        Ok((label, library_path, slot, pin, derivation_path)) => match key_init_value(
            key_text(env, i),
            i,
        ) {
            Err(e) => Err(e),
            Ok(key_init) => Ok(
                MemberView {
                    vendor,
                    label,
                    library_path,
                    slot,
                    pin,
                    derivation_path,
                    network,
                    key_init,
                },
            ),
        },
    }
}

/// What a result says.
pub open spec fn member_result(r: Result<MemberEnv, Pkcs11Error>) -> Result<
    MemberView,
    Pkcs11ErrorView,
> {
    match r {
        Ok(m) => Ok(m@),
        Err(e) => Err(e@),
    }
}

/// Reads a member that has a vendor.
pub fn parse_member(env: &Environment, network: Network, i: usize, vendor: String) -> (res: Result<
    MemberEnv,
    Pkcs11Error,
>)
    ensures
        member_result(res) == member_value(env@, network, i as nat, vendor@),
{
    let label = match req(env, i, "LABEL") {
        Ok(t) => t,
        Err(e) => {
            return Err(e);
        },
    };
    let library_path = match req(env, i, "LIB") {
        Ok(t) => t,
        Err(e) => {
            return Err(e);
        },
    };
    let slot = match parse_slot(env, i) {
        Ok(s) => s,
        Err(e) => {
            return Err(e);
        },
    };
    let pin = match req(env, i, "PIN") {
        Ok(t) => t,
        Err(e) => {
            return Err(e);
        },
    };
    let path_text = match req(env, i, "PATH") {
        Ok(t) => t,
        Err(e) => {
            return Err(e);
        },
    };
    let derivation_path = match DerivationPath::parse(path_text.as_str()) {
        Ok(p) => p,
        Err(e) => {
            return Err(
                Pkcs11Error::InvalidConfig(
                    text::join3(fkey(i, "PATH").as_str(), ": ", e.as_str()),
                ),
            );
        },
    };
    let key = env_or(env, fkey(i, "KEY").as_str(), "shim");
    let key_init = match parse_key_init(key.as_str(), i) {
        Ok(k) => k,
        Err(e) => {
            return Err(e);
        },
    };
    Ok(
        MemberEnv {
            vendor,
            label,
            library_path,
            slot,
            pin: Pin { text: pin },
            derivation_path,
            network,
            key_init,
        },
    )
}

// ---------------------------------------------------------------------------
// Vendors
// ---------------------------------------------------------------------------

/// A vendor's registrar, under its tag.
pub struct Registered<R> {
    /// The tag.
    pub vendor: String,
    /// Makes the backend factory for a member.
    pub registrar: R,
}

/// What a [`Registered`] says.
pub struct RegisteredView<R> {
    pub vendor: Seq<char>,
    pub registrar: R,
}

impl<R> View for Registered<R> {
    type V = RegisteredView<R>;

    open spec fn view(&self) -> RegisteredView<R> {
        RegisteredView { vendor: self.vendor@, registrar: self.registrar }
    }
}

/// The vendors' registrars, by their tags.
pub struct BackendRegistry<R> {
    registrars: Vec<Registered<R>>,
}

/// What a list of registrars says.
pub open spec fn registered<R>(list: Seq<Registered<R>>) -> Seq<RegisteredView<R>> {
    list.map_values(|r: Registered<R>| r@)
}

impl<R> View for BackendRegistry<R> {
    type V = Seq<RegisteredView<R>>;

    closed spec fn view(&self) -> Seq<RegisteredView<R>> {
        registered(self.registrars@)
    }
}

/// The registrar under a tag.
pub open spec fn registrar_of<R>(registry: Seq<RegisteredView<R>>, vendor: Seq<char>) -> Option<R>
    decreases registry.len(),
{
    if registry.len() == 0 {
        None
    } else if registry[0].vendor == vendor {
        Some(registry[0].registrar)
    } else {
        registrar_of(registry.drop_first(), vendor)
    }
}

proof fn lemma_registrar_behind<R>(
    before: Seq<RegisteredView<R>>,
    after: Seq<RegisteredView<R>>,
    vendor: Seq<char>,
)
    requires
        forall|j: int| 0 <= j < before.len() ==> before[j].vendor != vendor,
    ensures
        registrar_of(before + after, vendor) == registrar_of(after, vendor),
    decreases before.len(),
{
    if before.len() == 0 {
        assert(before + after =~= after);
    } else {
        assert((before + after).drop_first() =~= before.drop_first() + after);
        assert((before + after)[0] == before[0]);
        assert forall|j: int| 0 <= j < before.drop_first().len() implies before.drop_first()[j].vendor
            != vendor by {
            assert(before[j + 1].vendor != vendor);
        }
        lemma_registrar_behind(before.drop_first(), after, vendor);
    }
}

proof fn lemma_registrar_elsewhere<R>(
    before: Seq<RegisteredView<R>>,
    one: RegisteredView<R>,
    other: RegisteredView<R>,
    after: Seq<RegisteredView<R>>,
    vendor: Seq<char>,
)
    requires
        one.vendor != vendor,
        other.vendor != vendor,
    ensures
        registrar_of(before.push(one) + after, vendor) == registrar_of(
            before.push(other) + after,
            vendor,
        ),
    decreases before.len(),
{
    let a = before.push(one) + after;
    let b = before.push(other) + after;
    if before.len() == 0 {
        assert(a.drop_first() =~= after);
        assert(b.drop_first() =~= after);
    } else {
        assert(a[0] == before[0] && b[0] == before[0]);
        assert(a.drop_first() =~= before.drop_first().push(one) + after);
        assert(b.drop_first() =~= before.drop_first().push(other) + after);
        lemma_registrar_elsewhere(before.drop_first(), one, other, after, vendor);
    }
}

proof fn lemma_registrar_pushed<R>(
    list: Seq<RegisteredView<R>>,
    new: RegisteredView<R>,
    vendor: Seq<char>,
)
    requires
        new.vendor != vendor,
    ensures
        registrar_of(list.push(new), vendor) == registrar_of(list, vendor),
    decreases list.len(),
{
    if list.len() == 0 {
        assert(list.push(new).drop_first() =~= list);
        assert(registrar_of(list, vendor) is None);
    } else {
        assert(list.push(new).drop_first() =~= list.drop_first().push(new));
        lemma_registrar_pushed(list.drop_first(), new, vendor);
    }
}

impl<R> Default for BackendRegistry<R> {
    fn default() -> (r: BackendRegistry<R>)
        ensures
            r@ == Seq::<RegisteredView<R>>::empty(),
    {
        BackendRegistry::new()
    }
}

impl<R> BackendRegistry<R> {
    /// A registry without vendors.
    pub fn new() -> (r: BackendRegistry<R>)
        ensures
            r@ == Seq::<RegisteredView<R>>::empty(),
    {
        let r = BackendRegistry { registrars: Vec::new() };
        assert(r@ =~= Seq::<RegisteredView<R>>::empty());
        r
    }

    fn position(&self, vendor: &str) -> (found: Option<usize>)
        ensures
            match found {
                Some(i) => {
                    &&& i < self@.len()
                    &&& self@[i as int].vendor == vendor@
                    &&& forall|j: int| 0 <= j < i ==> self@[j].vendor != vendor@
                },
                None => forall|j: int| 0 <= j < self@.len() ==> self@[j].vendor != vendor@,
            },
    {
        let n: usize = self.registrars.len();
        let mut i: usize = 0;
        while i < n
            invariant
                i <= n,
                n == self.registrars@.len(),
                forall|j: int| 0 <= j < i ==> self@[j].vendor != vendor@,
            decreases n - i,
        {
            assert(self@[i as int] == self.registrars@[i as int]@);
            if text::same_text(self.registrars[i].vendor.as_str(), vendor) {
                return Some(i);
            }
            i = i + 1;
        }
        None
    }

    /// Registers a vendor, in place of one with the same tag. The registry is
    /// handed back, so that calls can be chained.
    pub fn register(&mut self, vendor: &str, registrar: R) -> (registry: &mut BackendRegistry<R>)
        ensures
            forall|name: Seq<char>| #[trigger]
                registrar_of(registry@, name) == if name == vendor@ {
                    Some(registrar)
                } else {
                    registrar_of(old(self)@, name)
                },
            *final(self) == *final(registry),
    {
        let ghost before = self@;
        let new = Registered { vendor: vendor.to_owned(), registrar };
        let ghost added = new@;
        match self.position(vendor) {
            Some(i) => {
                self.registrars.set(i, new);
                proof {
                    let head = before.take(i as int);
                    let tail = before.skip(i + 1);
                    assert(before =~= head.push(before[i as int]) + tail);
                    assert(self@ =~= head.push(added) + tail);
                    assert forall|name: Seq<char>| #[trigger] registrar_of(self@, name) == (if name
                        == vendor@ {
                        Some(registrar)
                    } else {
                        registrar_of(before, name)
                    }) by {
                        if name == vendor@ {
                            assert(self@ =~= head + (seq![added] + tail));
                            lemma_registrar_behind(head, seq![added] + tail, name);
                        } else {
                            lemma_registrar_elsewhere(
                                head,
                                before[i as int],
                                added,
                                tail,
                                name,
                            );
                        }
                    }
                }
            },
            None => {
                self.registrars.push(new);
                proof {
                    assert(self@ =~= before.push(added));
                    assert forall|name: Seq<char>| #[trigger] registrar_of(self@, name) == (if name
                        == vendor@ {
                        Some(registrar)
                    } else {
                        registrar_of(before, name)
                    }) by {
                        if name == vendor@ {
                            assert(self@ =~= before + seq![added]);
                            lemma_registrar_behind(before, seq![added], name);
                        } else {
                            lemma_registrar_pushed(before, added, name);
                        }
                    }
                }
            },
        }
        self
    }

    fn get(&self, vendor: &str) -> (r: Option<&R>)
        ensures
            match r {
                Some(x) => registrar_of(self@, vendor@) == Some(*x),
                None => registrar_of(self@, vendor@) is None,
            },
    {
        match self.position(vendor) {
            Some(i) => {
                proof {
                    let head = self@.take(i as int);
                    let tail = self@.skip(i as int);
                    assert(self@ =~= head + tail);
                    lemma_registrar_behind(head, tail, vendor@);
                    assert(self@[i as int] == self.registrars@[i as int]@);
                }
                Some(&self.registrars[i].registrar)
            },
            None => {
                proof {
                    let none = Seq::<RegisteredView<R>>::empty();
                    assert(self@ =~= self@ + none);
                    lemma_registrar_behind(self@, none, vendor@);
                }
                None
            },
        }
    }
}

// ---------------------------------------------------------------------------
// Fleets
// ---------------------------------------------------------------------------

/// A cosigner, with the factory that makes its backends.
pub struct FleetMember<F> {
    /// The vendor's tag.
    pub vendor: String,
    /// The signer's label.
    pub label: String,
    /// Where the PKCS#11 library is.
    pub library_path: String,
    /// Which token.
    pub slot: SlotIdentifier,
    /// The user PIN.
    pub pin: Pin,
    /// The derivation path.
    pub derivation_path: DerivationPath,
    /// The network of the fleet.
    pub network: Network,
    /// Makes a backend.
    pub make_backend: F,
    /// How the member comes by its key.
    pub key_init: KeyInit,
}

impl<F> FleetMember<F> {
    /// The member without its factory.
    pub open spec fn member(self) -> MemberView {
        MemberView {
            vendor: self.vendor@,
            label: self.label@,
            library_path: self.library_path@,
            slot: self.slot@,
            pin: self.pin@,
            derivation_path: self.derivation_path@,
            network: self.network,
            key_init: self.key_init@,
        }
    }
}

/// Whether two cosigners have the same key: they name the same vendor, library,
/// slot and path.
pub open spec fn same_key(a: MemberView, b: MemberView) -> bool {
    &&& a.vendor == b.vendor
    &&& a.library_path == b.library_path
    &&& a.slot == b.slot
    &&& a.derivation_path == b.derivation_path
}

/// Whether the cosigners at these places have the same key.
pub open spec fn collide<F>(members: Seq<FleetMember<F>>, i: int, j: int) -> bool {
    0 <= i < j < members.len() && same_key(members[i].member(), members[j].member())
}

/// What a fleet with two cosigners of one key is told.
pub open spec fn degenerate(i: nat, j: nat) -> Pkcs11ErrorView {
    Pkcs11ErrorView::InvalidConfig(
        "degenerate fleet: cosigners "@ + text::decimal(i) + " and "@ + text::decimal(j)
            + " resolve to the same key"@,
    )
}

/// Fleets.
pub struct Fleet;

impl Fleet {
    fn same<F>(a: &FleetMember<F>, b: &FleetMember<F>) -> (same: bool)
        ensures
            same == same_key(a.member(), b.member()),
    {
        text::same_text(a.vendor.as_str(), b.vendor.as_str()) && text::same_text(
            a.library_path.as_str(),
            b.library_path.as_str(),
        ) && a.slot.same(&b.slot) && a.derivation_path.same(&b.derivation_path)
    }

    /// Refuses a fleet in which two cosigners have the same key, and names the
    /// first two. Such a fleet would pass for a multisig, and be none.
    pub fn validate<F>(members: &[FleetMember<F>]) -> (res: Result<(), Pkcs11Error>)
        ensures
            match res {
                Ok(_) => forall|i: int, j: int| !collide(members@, i, j),
                Err(e) => exists|i: int, j: int|
                    {
                        &&& #[trigger] collide(members@, i, j)
                        &&& forall|k: int, l: int|
                            (k < i || (k == i && l < j)) ==> !#[trigger] collide(members@, k, l)
                        &&& e@ == degenerate(i as nat, j as nat)
                    },
            },
    {
        let n: usize = members.len();
        let mut i: usize = 0;
        while i < n
            invariant
                i <= n,
                n == members@.len(),
                forall|k: int, l: int| k < i ==> !#[trigger] collide(members@, k, l),
            decreases n - i,
        {
            let mut j: usize = i + 1;
            while j < n
                invariant
                    i < j <= n,
                    n == members@.len(),
                    forall|k: int, l: int|
                        (k < i || (k == i && l < j)) ==> !#[trigger] collide(members@, k, l),
                decreases n - j,
            {
                if Fleet::same(&members[i], &members[j]) {
                    assert(collide(members@, i as int, j as int));
                    let words = text::join5(
                        "degenerate fleet: cosigners ",
                        text::decimal_text(i as u64).as_str(),
                        " and ",
                        text::decimal_text(j as u64).as_str(),
                        " resolve to the same key",
                    );
                    return Err(Pkcs11Error::InvalidConfig(words));
                }
                j = j + 1;
            }
            i = i + 1;
        }
        Ok(())
    }
}

// ---------------------------------------------------------------------------
// A fleet from the environment
// ---------------------------------------------------------------------------

proof fn lemma_decimal_injective(a: nat, b: nat)
    requires
        text::decimal(a) == text::decimal(b),
    ensures
        a == b,
    decreases a,
{
    let x = text::decimal(a);
    let y = text::decimal(b);
    assert(text::digit(a % 10) as nat == '0' as nat + a % 10);
    assert(text::digit(b % 10) as nat == '0' as nat + b % 10);
    if a < 10 && b < 10 {
        assert(x[0] == text::digit(a % 10));
        assert(y[0] == text::digit(b % 10));
    } else if a < 10 {
        lemma_decimal_filled(b / 10);
        assert(y.len() > 1);
    } else if b < 10 {
        lemma_decimal_filled(a / 10);
        assert(x.len() > 1);
    } else {
        assert(x.drop_last() =~= text::decimal(a / 10));
        assert(y.drop_last() =~= text::decimal(b / 10));
        lemma_decimal_injective(a / 10, b / 10);
        assert(x.last() == text::digit(a % 10));
        assert(y.last() == text::digit(b % 10));
    }
}

proof fn lemma_decimal_filled(n: nat)
    ensures
        text::decimal(n).len() > 0,
    decreases n,
{
    if n >= 10 {
        lemma_decimal_filled(n / 10);
    }
}

/// Different members have different variables.
pub proof fn law_member_keys_distinct(i: nat, j: nat, field: Seq<char>)
    requires
        member_key(i, field) == member_key(j, field),
    ensures
        i == j,
{
    reveal_strlit("EMVAULT_FLEET_");
    reveal_strlit("_");
    let k = member_key(i, field);
    let n = k.len() - field.len() - 1;
    assert(text::decimal(i) =~= k.subrange(14, n));
    assert(text::decimal(j) =~= k.subrange(14, n));
    lemma_decimal_injective(i, j);
}

/// The vendor of a member, if it has one.
pub open spec fn member_vendor(env: Seq<VariableView>, i: nat) -> Option<Seq<char>> {
    environment::lookup_filled(env, member_key(i, "VENDOR"@))
}

proof fn lemma_lookup_place(env: Seq<VariableView>, name: Seq<char>) -> (k: int)
    requires
        environment::lookup(env, name) is Some,
    ensures
        0 <= k < env.len(),
        env[k].name == name,
    decreases env.len(),
{
    if env[0].name == name {
        0
    } else {
        lemma_lookup_place(env.drop_first(), name) + 1
    }
}

/// A place of the member's vendor in the environment.
spec fn vendor_place(env: Seq<VariableView>, i: int) -> int {
    choose|k: int| 0 <= k < env.len() && #[trigger] env[k].name == member_key(i as nat, "VENDOR"@)
}

proof fn lemma_members_fit(env: Seq<VariableView>, n: nat)
    requires
        forall|i: nat| i < n ==> #[trigger] member_vendor(env, i) is Some,
    ensures
        n <= env.len(),
{
    let members = vstd::set_lib::set_int_range(0, n as int);
    let places = vstd::set_lib::set_int_range(0, env.len() as int);
    let place = |i: int| vendor_place(env, i);
    vstd::set_lib::lemma_int_range(0, n as int);
    vstd::set_lib::lemma_int_range(0, env.len() as int);
    assert forall|i: int| members.contains(i) implies {
        &&& places.contains(#[trigger] vendor_place(env, i))
        &&& env[vendor_place(env, i)].name == member_key(i as nat, "VENDOR"@)
    } by {
        assert(member_vendor(env, i as nat) is Some);
        let k = lemma_lookup_place(env, member_key(i as nat, "VENDOR"@));
        assert(env[k].name == member_key(i as nat, "VENDOR"@));
    }
    assert(vstd::relations::injective_on(place, members)) by {
        assert forall|i: int, j: int|
            members.contains(i) && members.contains(j) && #[trigger] place(i) == #[trigger] place(
                j,
            ) implies i == j by {
            assert(places.contains(vendor_place(env, i)));
            assert(places.contains(vendor_place(env, j)));
            law_member_keys_distinct(i as nat, j as nat, "VENDOR"@);
        }
    }
    let taken = members.map(place);
    vstd::set_lib::lemma_map_size(members, taken, place);
    assert forall|p: int| taken.contains(p) implies places.contains(p) by {
        let i = choose|i: int| members.contains(i) && place(i) == p;
        assert(places.contains(vendor_place(env, i)));
    }
    vstd::set_lib::lemma_len_subset(taken, places);
}

/// Whether the registrar of the member's vendor, given the member, can come to
/// this.
pub open spec fn made<R: Fn(&MemberEnv) -> Result<F, Pkcs11Error>, F>(
    registry: Seq<RegisteredView<R>>,
    member: MemberView,
    out: Result<F, Pkcs11Error>,
) -> bool {
    match registrar_of(registry, member.vendor) {
        Some(registrar) => exists|m: &MemberEnv|
            m@ == member && #[trigger] call_ensures(registrar, (m,), out),
        None => false,
    }
}

/// Whether a member is in order: it has a vendor, it is described in full, and
/// its vendor's registrar makes this factory for it.
pub open spec fn in_order<R: Fn(&MemberEnv) -> Result<F, Pkcs11Error>, F>(
    env: Seq<VariableView>,
    network: Network,
    registry: Seq<RegisteredView<R>>,
    i: nat,
    make_backend: F,
) -> bool {
    match member_vendor(env, i) {
        Some(vendor) => match member_value(env, network, i, vendor) {
            Ok(member) => made(registry, member, Ok(make_backend)),
            Err(_) => false,
        },
        None => false,
    }
}

/// Whether a member is in order, whatever factory is made for it.
pub open spec fn fine<R: Fn(&MemberEnv) -> Result<F, Pkcs11Error>, F>(
    env: Seq<VariableView>,
    network: Network,
    registry: Seq<RegisteredView<R>>,
    i: nat,
) -> bool {
    exists|f: F| #[trigger] in_order(env, network, registry, i, f)
}

/// Whether this is the cosigner that a member in order comes to.
pub open spec fn settled<R: Fn(&MemberEnv) -> Result<F, Pkcs11Error>, F>(
    env: Seq<VariableView>,
    network: Network,
    registry: Seq<RegisteredView<R>>,
    i: int,
    member: FleetMember<F>,
) -> bool {
    &&& member_vendor(env, i as nat) == Some(member.vendor@)
    &&& member_value(env, network, i as nat, member.vendor@) == Ok::<MemberView, Pkcs11ErrorView>(
        member.member(),
    )
    &&& in_order(env, network, registry, i as nat, member.make_backend)
}

/// Whether a member with a vendor is not in order for this reason: it is not
/// described in full, its vendor is not registered, or the registrar refuses it.
pub open spec fn out_of_order<R: Fn(&MemberEnv) -> Result<F, Pkcs11Error>, F>(
    env: Seq<VariableView>,
    network: Network,
    registry: Seq<RegisteredView<R>>,
    i: nat,
    e: Pkcs11Error,
) -> bool {
    match member_vendor(env, i) {
        Some(vendor) => match member_value(env, network, i, vendor) {
            Err(reason) => e@ == reason,
            Ok(member) => match registrar_of(registry, vendor) {
                None => e@ == Pkcs11ErrorView::InvalidConfig(
                    "no backend registered for vendor '"@ + vendor + "'"@,
                ),
                Some(_) => made::<R, F>(registry, member, Err(e)),
            },
        },
        None => false,
    }
}

/// Whether a registrar takes any member.
pub open spec fn takes_any<R: Fn(&MemberEnv) -> Result<F, Pkcs11Error>, F>(registrar: R) -> bool {
    forall|m: &MemberEnv| #[trigger] call_requires(registrar, (m,))
}

/// Whether the registrar under a tag, if there is one, takes any member.
pub open spec fn callable<R: Fn(&MemberEnv) -> Result<F, Pkcs11Error>, F>(
    registry: Seq<RegisteredView<R>>,
    vendor: Seq<char>,
) -> bool {
    registrar_of(registry, vendor) is Some ==> takes_any::<R, F>(
        registrar_of(registry, vendor)->Some_0,
    )
}

/// The network of the fleet.
pub open spec fn fleet_network(env: Seq<VariableView>) -> Result<Network, Pkcs11ErrorView> {
    network_value(value_or(env, "EMVAULT_FLEET_NETWORK"@, "testnet"@))
}

impl Fleet {
    /// Reads a fleet from the environment. Each member's vendor makes the
    /// member's backend factory before the next member is read.
    pub fn from_env<R: Fn(&MemberEnv) -> Result<F, Pkcs11Error>, F>(
        registry: &BackendRegistry<R>,
        env: &Environment,
    ) -> (res: Result<Vec<FleetMember<F>>, Pkcs11Error>)
        requires
            forall|vendor: Seq<char>| #[trigger] callable::<R, F>(registry@, vendor),
        ensures
            match fleet_network(env@) {
                Err(reason) => res is Err && res->Err_0@ == reason,
                Ok(network) => match res {
                    Ok(members) => {
                        &&& members@.len() > 0
                        &&& member_vendor(env@, members@.len()) is None
                        &&& forall|i: int|
                            0 <= i < members@.len() ==> settled(
                                env@,
                                network,
                                registry@,
                                i,
                                #[trigger] members@[i],
                            )
                    },
                    Err(e) => exists|n: nat|
                        {
                            &&& forall|i: nat|
                                i < n ==> #[trigger] fine::<R, F>(env@, network, registry@, i)
                            &&& #[trigger] member_vendor(env@, n) is Some ==> out_of_order::<R, F>(
                                env@,
                                network,
                                registry@,
                                n,
                                e,
                            )
                            &&& member_vendor(env@, n) is None ==> n == 0 && e@
                                == Pkcs11ErrorView::InvalidConfig(
                                "no EMVAULT_FLEET_0_VENDOR found"@,
                            )
                        },
                },
            },
    {
        let network = match parse_network(env_or(env, "EMVAULT_FLEET_NETWORK", "testnet").as_str()) {
            Ok(n) => n,
            Err(e) => {
                return Err(e);
            },
        };
        let mut members: Vec<FleetMember<F>> = Vec::new();
        let mut i: usize = 0;
        loop
            invariant_except_break
                i == members@.len(),
                fleet_network(env@) == Ok::<Network, Pkcs11ErrorView>(network),
                forall|vendor: Seq<char>| #[trigger] callable::<R, F>(registry@, vendor),
                forall|j: int|
                    0 <= j < members@.len() ==> settled(
                        env@,
                        network,
                        registry@,
                        j,
                        #[trigger] members@[j],
                    ),
                forall|j: nat| j < i ==> #[trigger] fine::<R, F>(env@, network, registry@, j),
            ensures
                fleet_network(env@) == Ok::<Network, Pkcs11ErrorView>(network),
                member_vendor(env@, members@.len()) is None,
                forall|j: int|
                    0 <= j < members@.len() ==> settled(
                        env@,
                        network,
                        registry@,
                        j,
                        #[trigger] members@[j],
                    ),
            decreases env@.len() - i,
        {
            let vendor = match env.opt(fkey(i, "VENDOR").as_str()) {
                Some(v) => v,
                None => {
                    break;
                },
            };
            proof {
                assert(member_vendor(env@, i as nat) == Some(vendor@));
                assert forall|j: nat| j < i + 1 implies #[trigger] member_vendor(env@, j) is Some by {
                    if j < i {
                        assert(fine::<R, F>(env@, network, registry@, j));
                    }
                }
                lemma_members_fit(env@, (i + 1) as nat);
                assert(env@.len() == env.variables.len());
            }
            let member = match parse_member(env, network, i, vendor) {
                Ok(m) => m,
                Err(e) => {
                    assert(out_of_order::<R, F>(env@, network, registry@, i as nat, e));
                    return Err(e);
                },
            };
            let registrar = match registry.get(member.vendor.as_str()) {
                Some(r) => r,
                None => {
                    let e = Pkcs11Error::InvalidConfig(
                        text::join3(
                            "no backend registered for vendor '",
                            member.vendor.as_str(),
                            "'",
                        ),
                    );
                    assert(out_of_order::<R, F>(env@, network, registry@, i as nat, e));
                    return Err(e);
                },
            };
            assert(callable::<R, F>(registry@, member.vendor@));
            assert(takes_any::<R, F>(*registrar));
            let make_backend = match (*registrar)(&member) {
                Ok(f) => f,
                Err(e) => {
                    assert(made::<R, F>(registry@, member@, Err(e)));
                    assert(out_of_order::<R, F>(env@, network, registry@, i as nat, e));
                    return Err(e);
                },
            };
            assert(made::<R, F>(registry@, member@, Ok(make_backend)));
            assert(in_order(env@, network, registry@, i as nat, make_backend));
            assert(fine::<R, F>(env@, network, registry@, i as nat));
            let ghost before = members@;
            members.push(
                FleetMember {
                    vendor: member.vendor,
                    label: member.label,
                    library_path: member.library_path,
                    slot: member.slot,
                    pin: member.pin,
                    derivation_path: member.derivation_path,
                    network: member.network,
                    make_backend,
                    key_init: member.key_init,
                },
            );
            assert(settled(env@, network, registry@, i as int, members@[i as int]));
            assert forall|j: int| 0 <= j < members@.len() implies settled(
                env@,
                network,
                registry@,
                j,
                #[trigger] members@[j],
            ) by {
                if j < i {
                    assert(members@[j] == before[j]);
                }
            }
            i = i + 1;
        }
        if members.len() == 0 {
            return Err(Pkcs11Error::InvalidConfig("no EMVAULT_FLEET_0_VENDOR found".to_owned()));
        }
        Ok(members)
    }
}

// ---------------------------------------------------------------------------
// Building a member
// ---------------------------------------------------------------------------

/// What the signer of a member is to be.
pub open spec fn profile_of(member: MemberView, options: SignerOptions) -> ProfileView {
    ProfileView {
        label: member.label,
        derivation_path: member.derivation_path,
        network: member.network,
        options,
    }
}

/// What follows once the session is open.
pub open spec fn then_key(member: MemberView, options: SignerOptions) -> spec_fn(
    Result<u64, Pkcs11ErrorView>,
) -> Prog<Result<SignerView, Pkcs11ErrorView>> {
    |d: Result<u64, Pkcs11ErrorView>|
        match d {
            Err(e) => Prog::Done(Err(e)),
            Ok(_) => match member.key_init {
                KeyInitView::DeriveFromSeed(seed) => signer::signer_derivation(
                    profile_of(member, options),
                    seed,
                ),
                KeyInitView::Load => signer::signer_loading(profile_of(member, options)),
            },
        }
}

/// Opens a member's session, and derives or loads its signer.
pub open spec fn member_building(member: MemberView, options: SignerOptions) -> Prog<
    Result<SignerView, Pkcs11ErrorView>,
> {
    session::session_opening(member.library_path, member.slot, member.pin).bind(
        then_key(member, options),
    )
}

enum BuildMemberState {
    Opening(OpenSession),
    Deriving(DeriveSigner),
    Loading(LoadSigner),
}

/// Makes the signer of a member.
pub struct BuildMember {
    member: MemberEnv,
    options: SignerOptions,
    state: BuildMemberState,
}

impl Operation for BuildMember {
    type Out = Result<Pkcs11Signer, Pkcs11Error>;

    type OutView = Result<SignerView, Pkcs11ErrorView>;

    closed spec fn prog(self) -> Prog<Result<SignerView, Pkcs11ErrorView>> {
        match self.state {
            BuildMemberState::Opening(m) if m.prog() is Ask => m.prog().bind(
                then_key(self.member@, self.options),
            ),
            BuildMemberState::Deriving(m) => m.prog(),
            BuildMemberState::Loading(m) => m.prog(),
            _ => Prog::Stuck,
        }
    }

    open spec fn out_view(out: Result<Pkcs11Signer, Pkcs11Error>) -> Result<
        SignerView,
        Pkcs11ErrorView,
    > {
        signer::signer_result(out)
    }
}

impl BuildMember {
    fn opening(
        member: MemberEnv,
        options: SignerOptions,
        step: Step<OpenSession, Result<Pkcs11Session, Pkcs11Error>>,
        Ghost(prog): Ghost<Prog<Result<u64, Pkcs11ErrorView>>>,
    ) -> (next: Step<BuildMember, Result<Pkcs11Signer, Pkcs11Error>>)
        requires
            program::runs_as(step, prog),
        ensures
            program::runs_as(next, prog.bind(then_key(member@, options))),
    {
        match step {
            Step::Ask(q, m) => Step::Ask(
                q,
                BuildMember { member, options, state: BuildMemberState::Opening(m) },
            ),
            Step::Done(Err(e)) => Step::Done(Err(e)),
            Step::Done(Ok(_)) => match &member.key_init {
                KeyInit::DeriveFromSeed(seed) => {
                    let ghost rest = signer::signer_derivation(
                        profile_of(member@, options),
                        seed@,
                    );
                    let step = Pkcs11Signer::derive_from_seed(
                        member.label.as_str(),
                        &member.derivation_path,
                        member.network,
                        options,
                        seed.as_slice(),
                    );
                    BuildMember::deriving(member, options, step, Ghost(rest))
                },
                KeyInit::Load => {
                    let ghost rest = signer::signer_loading(profile_of(member@, options));
                    let step = Pkcs11Signer::load(
                        member.label.as_str(),
                        member.derivation_path.clone(),
                        member.network,
                        options,
                    );
                    BuildMember::loading(member, options, step, Ghost(rest))
                },
            },
        }
    }

    fn deriving(
        member: MemberEnv,
        options: SignerOptions,
        step: Step<DeriveSigner, Result<Pkcs11Signer, Pkcs11Error>>,
        Ghost(prog): Ghost<Prog<Result<SignerView, Pkcs11ErrorView>>>,
    ) -> (next: Step<BuildMember, Result<Pkcs11Signer, Pkcs11Error>>)
        requires
            program::runs_as(step, prog),
        ensures
            program::runs_as(next, prog),
    {
        match step {
            Step::Ask(q, m) => Step::Ask(
                q,
                BuildMember { member, options, state: BuildMemberState::Deriving(m) },
            ),
            Step::Done(out) => Step::Done(out),
        }
    }

    fn loading(
        member: MemberEnv,
        options: SignerOptions,
        step: Step<LoadSigner, Result<Pkcs11Signer, Pkcs11Error>>,
        Ghost(prog): Ghost<Prog<Result<SignerView, Pkcs11ErrorView>>>,
    ) -> (next: Step<BuildMember, Result<Pkcs11Signer, Pkcs11Error>>)
        requires
            program::runs_as(step, prog),
        ensures
            program::runs_as(next, prog),
    {
        match step {
            Step::Ask(q, m) => Step::Ask(
                q,
                BuildMember { member, options, state: BuildMemberState::Loading(m) },
            ),
            Step::Done(out) => Step::Done(out),
        }
    }
}

impl Machine for BuildMember {
    fn resume(self, reply: Reply) -> (step: Step<BuildMember, Result<Pkcs11Signer, Pkcs11Error>>) {
        let member = self.member;
        let options = self.options;
        match self.state {
            BuildMemberState::Opening(m) => {
                let ghost prog = (m.prog()->Ask_1)(reply@);
                assert(prog.bind(then_key(member@, options)) !is Stuck);
                let step = m.resume(reply);
                BuildMember::opening(member, options, step, Ghost(prog))
            },
            BuildMemberState::Deriving(m) => {
                let ghost prog = (m.prog()->Ask_1)(reply@);
                let step = m.resume(reply);
                BuildMember::deriving(member, options, step, Ghost(prog))
            },
            BuildMemberState::Loading(m) => {
                let ghost prog = (m.prog()->Ask_1)(reply@);
                let step = m.resume(reply);
                BuildMember::loading(member, options, step, Ghost(prog))
            },
        }
    }
}

/// Opens a member's session, and derives or loads its signer.
pub fn build_member(member: MemberEnv, options: SignerOptions) -> (step: Step<
    BuildMember,
    Result<Pkcs11Signer, Pkcs11Error>,
>)
    ensures
        program::runs_as(step, member_building(member@, options)),
{
    let ghost prog = session::session_opening(
        member@.library_path,
        member@.slot,
        member@.pin,
    );
    let cfg = Pkcs11Config::new(
        member.library_path.clone(),
        member.slot.clone(),
        Pin { text: member.pin.text.clone() },
        member.derivation_path.clone(),
        (),
    );
    let step = Pkcs11Session::open(&cfg, &member.slot, member.pin.text.as_str());
    BuildMember::opening(member, options, step, Ghost(prog))
}

// ---------------------------------------------------------------------------
// Building a fleet
// ---------------------------------------------------------------------------

/// Makes the signers of `count` members in turn, behind those that are made. The
/// first that fails ends it.
pub open spec fn fleet_building(count: nat, made: Seq<SignerView>) -> Prog<
    Result<Seq<SignerView>, Pkcs11ErrorView>,
>
    decreases count - made.len(),
{
    if made.len() >= count {
        Prog::Done(Ok(made))
    } else {
        Prog::Ask(
            RequestView::BuildMember(made.len()),
            |r: ReplyView|
                match r {
                    ReplyView::Built(Ok(s)) => fleet_building(count, made.push(s)),
                    ReplyView::Built(Err(e)) => Prog::Done(Err(e)),
                    _ => Prog::Stuck,
                },
        )
    }
}

/// What a list of signers says.
pub open spec fn signers(list: Seq<Pkcs11Signer>) -> Seq<SignerView> {
    list.map_values(|s: Pkcs11Signer| s@)
}

/// Makes the signers of a fleet.
pub struct BuildFleet {
    count: usize,
    made: Vec<Pkcs11Signer>,
}

impl Operation for BuildFleet {
    type Out = Result<Vec<Pkcs11Signer>, Pkcs11Error>;

    type OutView = Result<Seq<SignerView>, Pkcs11ErrorView>;

    closed spec fn prog(self) -> Prog<Result<Seq<SignerView>, Pkcs11ErrorView>> {
        fleet_building(self.count as nat, signers(self.made@))
    }

    open spec fn out_view(out: Result<Vec<Pkcs11Signer>, Pkcs11Error>) -> Result<
        Seq<SignerView>,
        Pkcs11ErrorView,
    > {
        match out {
            Ok(l) => Ok(signers(l@)),
            Err(e) => Err(e@),
        }
    }
}

impl BuildFleet {
    fn go_on(count: usize, made: Vec<Pkcs11Signer>) -> (step: Step<
        BuildFleet,
        Result<Vec<Pkcs11Signer>, Pkcs11Error>,
    >)
        ensures
            program::runs_as(step, fleet_building(count as nat, signers(made@))),
    {
        let next: usize = made.len();
        if next >= count {
            Step::Done(Ok(made))
        } else {
            Step::Ask(Request::BuildMember(next), BuildFleet { count, made })
        }
    }
}

impl Machine for BuildFleet {
    fn resume(self, reply: Reply) -> (step: Step<
        BuildFleet,
        Result<Vec<Pkcs11Signer>, Pkcs11Error>,
    >) {
        match reply {
            Reply::Built(Ok(s)) => {
                let mut made = self.made;
                let ghost before = signers(made@);
                let ghost added = s@;
                made.push(s);
                assert(signers(made@) =~= before.push(added));
                BuildFleet::go_on(self.count, made)
            },
            Reply::Built(Err(e)) => Step::Done(Err(e)),
            _ => vstd::pervasive::unreached(),
        }
    }
}

impl Fleet {
    /// Makes the signers of a fleet, one for each member. A fleet in which two
    /// cosigners have the same key is refused before anything is opened.
    pub fn build_signers<F>(members: &[FleetMember<F>]) -> (step: Step<
        BuildFleet,
        Result<Vec<Pkcs11Signer>, Pkcs11Error>,
    >)
        ensures
            if exists|i: int, j: int| collide(members@, i, j) {
                exists|i: int, j: int|
                    {
                        &&& #[trigger] collide(members@, i, j)
                        &&& forall|k: int, l: int|
                            (k < i || (k == i && l < j)) ==> !#[trigger] collide(members@, k, l)
                        &&& program::runs_as(
                            step,
                            Prog::Done(Err(degenerate(i as nat, j as nat))),
                        )
                    }
            } else {
                program::runs_as(step, fleet_building(members@.len(), Seq::empty()))
            },
    {
        match Fleet::validate(members) {
            Err(e) => Step::Done(Err(e)),
            Ok(_) => {
                let made: Vec<Pkcs11Signer> = Vec::new();
                assert(signers(made@) =~= Seq::<SignerView>::empty());
                BuildFleet::go_on(members.len(), made)
            },
        }
    }
}

} // verus!
