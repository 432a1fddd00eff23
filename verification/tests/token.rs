//! The operations against a software token.
use bitcoin::bip32::{ChildNumber as Child, Xpriv};
use bitcoin::hashes::Hash as _;
use bitcoin::secp256k1::{Keypair, Message, Secp256k1, SecretKey, XOnlyPublicKey};
use emvault_pkcs11::backend::utimaco::UtimacoBackend;
use emvault_pkcs11::backend::StandardDerivation;
use emvault_pkcs11::bip32::{ChildNumber, DerivationPath, Fingerprint, Network, NetworkKind, PublicKey};
use emvault_pkcs11::config::{Pin, Pkcs11Config, SlotIdentifier};
use emvault_pkcs11::derivation::{
    DescriptorPublicKey, FixedKey, HsmNativeBip32, SignerContext, SoftwareTweakDev, Wildcard,
};
use emvault_pkcs11::elements::{ElementsTx, Pset, PsetError, PsetInput, PsetKeyOrigin};
use emvault_pkcs11::error::{HsmBackendError, Pkcs11Error, SignerError};
use emvault_pkcs11::fleet::{build_member, Fleet, FleetMember, KeyInit, MemberEnv};
use emvault_pkcs11::key_ops::{delete_key, der_encode_octet_string, find_key_by_label, priv_label};
use emvault_pkcs11::policy;
use emvault_pkcs11::policy::{MinimalHsmPolicy, SigRateCounter};
use emvault_pkcs11::program::{Machine, Reply, Request, Step};
use emvault_pkcs11::psbt::{KeyOrigin, PartialSig, Psbt, PsbtInput, TapKeyOrigin, Transaction, TxIn, TxOut};
use emvault_pkcs11::session::{resolve_slot, Pkcs11Session};
use emvault_pkcs11::signer::{
    ElementsNetworkId, NetworkPatchedSigner, NetworkType, Pkcs11Signer, SignerOptions, SignerType,
};
use emvault_pkcs11::token::{
    Attribute, AttributeType, MechanismType, ObjectClass, ObjectHandle, TokenError, TokenErrorCode,
};
use std::collections::BTreeMap;

// ---------------------------------------------------------------------------
// A software token
// ---------------------------------------------------------------------------

struct Object {
    attributes: Vec<Attribute>,
    key: Option<Xpriv>,
}

struct SoftToken {
    objects: BTreeMap<u64, Object>,
    next: u64,
    now: u64,
    /// The labels of the tokens, by slot.
    slots: Vec<(u64, String)>,
    initialized: bool,
    logged_in: bool,
    /// Give the larger of the two numbers that a signature can end in.
    high_s: bool,
    /// The requests so far, by name.
    asked: Vec<String>,
    /// The request to refuse, by name.
    refuse: Option<String>,
    /// The key that the derivation strategy signs with.
    strategy_key: Option<ObjectHandle>,
}

fn copy(a: &Attribute) -> Attribute {
    match a {
        Attribute::Class(c) => Attribute::Class(*c),
        Attribute::KeyType(k) => Attribute::KeyType(*k),
        Attribute::Token(b) => Attribute::Token(*b),
        Attribute::Private(b) => Attribute::Private(*b),
        Attribute::Sensitive(b) => Attribute::Sensitive(*b),
        Attribute::Extractable(b) => Attribute::Extractable(*b),
        Attribute::Sign(b) => Attribute::Sign(*b),
        Attribute::Derive(b) => Attribute::Derive(*b),
        Attribute::Label(v) => Attribute::Label(v.clone()),
        Attribute::Application(v) => Attribute::Application(v.clone()),
        Attribute::Value(v) => Attribute::Value(v.clone()),
        Attribute::EcParams(v) => Attribute::EcParams(v.clone()),
        Attribute::EcPoint(v) => Attribute::EcPoint(v.clone()),
        Attribute::VendorDefined(n, v) => Attribute::VendorDefined(*n, v.clone()),
        Attribute::Other(n) => Attribute::Other(*n),
    }
}

fn type_of(a: &Attribute) -> Option<AttributeType> {
    match a {
        Attribute::EcPoint(_) => Some(AttributeType::EcPoint),
        Attribute::Value(_) => Some(AttributeType::Value),
        Attribute::VendorDefined(n, _) => Some(AttributeType::VendorDefined(*n)),
        _ => None,
    }
}

fn refusal() -> TokenError {
    TokenError { code: TokenErrorCode::Other, message: "refused".to_string() }
}

fn name_of(q: &Request) -> &'static str {
    match q {
        Request::LoadLibrary(_) => "LoadLibrary",
        Request::Initialize => "Initialize",
        Request::SlotsWithToken => "SlotsWithToken",
        Request::SlotLabel(_) => "SlotLabel",
        Request::OpenSession(_) => "OpenSession",
        Request::Login(_) => "Login",
        Request::TokenLabel => "TokenLabel",
        Request::MechanismList => "MechanismList",
        Request::FindObjects(_) => "FindObjects",
        Request::GetAttributes(_, _) => "GetAttributes",
        Request::CreateObject(_) => "CreateObject",
        Request::DestroyObject(_) => "DestroyObject",
        Request::DeriveKey { .. } => "DeriveKey",
        Request::SignEcdsa(_, _) => "SignEcdsa",
        Request::DeriveChild(_, _) => "DeriveChild",
        Request::DeriveMasterKey(_, _) => "DeriveMasterKey",
        Request::DerivePath(_, _) => "DerivePath",
        Request::ReadXpub(_) => "ReadXpub",
        Request::MasterFingerprint(_) => "MasterFingerprint",
        Request::SignSchnorr { .. } => "SignSchnorr",
        Request::StrategySign(_, _) => "StrategySign",
        Request::DecodePolicy(_) => "DecodePolicy",
        Request::DecodeSigRate(_) => "DecodeSigRate",
        Request::EncodePolicy(_) => "EncodePolicy",
        Request::EncodeSigRate(_) => "EncodeSigRate",
        Request::Now => "Now",
        Request::BuildMember(_) => "BuildMember",
    }
}

fn encode_policy(p: &MinimalHsmPolicy) -> Vec<u8> {
    let mut map = serde_json::Map::new();
    if let Some(limit) = p.per_transaction_limit {
        map.insert("per_transaction_limit".to_string(), serde_json::Value::from(limit));
    }
    if let Some(max) = p.max_signatures_per_hour {
        map.insert("max_signatures_per_hour".to_string(), serde_json::Value::from(max));
    }
    if let Some(list) = &p.destination_whitelist {
        map.insert("destination_whitelist".to_string(), serde_json::Value::from(list.clone()));
    }
    serde_json::to_vec(&serde_json::Value::Object(map)).unwrap()
}

fn decode_policy(bytes: &[u8]) -> Result<MinimalHsmPolicy, String> {
    let v: serde_json::Value = serde_json::from_slice(bytes).map_err(|e| e.to_string())?;
    let list = v.get("destination_whitelist").and_then(|l| l.as_array()).map(|l| {
        l.iter().map(|t| t.as_str().unwrap().to_string()).collect::<Vec<String>>()
    });
    Ok(MinimalHsmPolicy {
        per_transaction_limit: v.get("per_transaction_limit").and_then(|n| n.as_u64()),
        max_signatures_per_hour: v
            .get("max_signatures_per_hour")
            .and_then(|n| n.as_u64())
            .map(|n| n as u32),
        destination_whitelist: list,
    })
}

fn encode_times(c: &SigRateCounter) -> Vec<u8> {
    serde_json::to_vec(&c.timestamps).unwrap()
}

fn decode_times(bytes: &[u8]) -> Result<SigRateCounter, String> {
    let timestamps: Vec<u64> = serde_json::from_slice(bytes).map_err(|e| e.to_string())?;
    Ok(SigRateCounter { timestamps })
}

impl SoftToken {
    fn new() -> SoftToken {
        SoftToken {
            objects: BTreeMap::new(),
            next: 1,
            now: 10_000,
            slots: vec![(4, "other".to_string()), (9, "core-test   ".to_string())],
            initialized: false,
            logged_in: false,
            high_s: false,
            asked: vec![],
            refuse: None,
            strategy_key: None,
        }
    }

    fn insert(&mut self, attributes: Vec<Attribute>, key: Option<Xpriv>) -> ObjectHandle {
        let value: u64 = self.next;
        self.next += 1;
        self.objects.insert(value, Object { attributes, key });
        ObjectHandle { value }
    }

    fn insert_key(&mut self, template: Vec<Attribute>, key: Xpriv) -> ObjectHandle {
        let secp = Secp256k1::new();
        let ids = StandardDerivation::of(&UtimacoBackend).ids;
        let number = |t: AttributeType| match t {
            AttributeType::VendorDefined(n) => n,
            _ => unreachable!(),
        };
        let point = key.private_key.public_key(&secp).serialize_uncompressed();
        let mut attributes = template;
        attributes.push(Attribute::EcPoint(der_encode_octet_string(&point)));
        attributes.push(Attribute::VendorDefined(
            number(ids.chain_code),
            key.chain_code.to_bytes().to_vec(),
        ));
        attributes.push(Attribute::VendorDefined(number(ids.depth), vec![key.depth]));
        attributes.push(Attribute::VendorDefined(
            number(ids.parent_fingerprint),
            key.parent_fingerprint.to_bytes().to_vec(),
        ));
        attributes.push(Attribute::VendorDefined(
            number(ids.child_index),
            u32::from(key.child_number).to_le_bytes().to_vec(),
        ));
        self.insert(attributes, Some(key))
    }

    fn labels(&self, class: ObjectClass) -> Vec<String> {
        let mut out: Vec<String> = vec![];
        for o in self.objects.values() {
            if o.attributes.contains(&Attribute::Class(class)) {
                for a in &o.attributes {
                    if let Attribute::Label(l) = a {
                        out.push(String::from_utf8(l.clone()).unwrap());
                    }
                }
            }
        }
        out
    }

    fn answer(&mut self, q: Request) -> Reply {
        let name = name_of(&q);
        self.asked.push(name.to_string());
        let refused = self.refuse.as_deref() == Some(name);
        let standard = StandardDerivation::of(&UtimacoBackend);
        match q {
            Request::LoadLibrary(_) => Reply::Unit(if refused { Err(refusal()) } else { Ok(()) }),
            Request::Initialize => {
                if refused {
                    return Reply::Unit(Err(refusal()));
                }
                if self.initialized {
                    return Reply::Unit(Err(TokenError {
                        code: TokenErrorCode::CryptokiAlreadyInitialized,
                        message: "already initialized".to_string(),
                    }));
                }
                self.initialized = true;
                Reply::Unit(Ok(()))
            }
            Request::SlotsWithToken => {
                if refused {
                    return Reply::Slots(Err(refusal()));
                }
                Reply::Slots(Ok(self.slots.iter().map(|s| s.0).collect()))
            }
            Request::SlotLabel(id) => {
                if refused {
                    return Reply::Label(Err(refusal()));
                }
                let label = self.slots.iter().find(|s| s.0 == id).unwrap().1.clone();
                Reply::Label(Ok(label))
            }
            Request::OpenSession(_) => Reply::Unit(if refused { Err(refusal()) } else { Ok(()) }),
            Request::Login(pin) => {
                if refused || pin != "1234" {
                    return Reply::Unit(Err(refusal()));
                }
                if self.logged_in {
                    return Reply::Unit(Err(TokenError {
                        code: TokenErrorCode::UserAlreadyLoggedIn,
                        message: "already logged in".to_string(),
                    }));
                }
                self.logged_in = true;
                Reply::Unit(Ok(()))
            }
            Request::TokenLabel => Reply::Label(if refused {
                Err(refusal())
            } else {
                Ok("core-test   ".to_string())
            }),
            Request::MechanismList => Reply::Mechanisms(if refused {
                Err(refusal())
            } else {
                Ok(vec![MechanismType::ecdsa()])
            }),
            Request::FindObjects(template) => {
                if refused {
                    return Reply::Handles(Err(refusal()));
                }
                let mut out: Vec<ObjectHandle> = vec![];
                for (value, o) in &self.objects {
                    if template.iter().all(|a| o.attributes.contains(a)) {
                        out.push(ObjectHandle { value: *value });
                    }
                }
                Reply::Handles(Ok(out))
            }
            Request::GetAttributes(h, types) => {
                if refused {
                    return Reply::Attributes(Err(refusal()));
                }
                let o = match self.objects.get(&h.value) {
                    Some(o) => o,
                    None => return Reply::Attributes(Err(refusal())),
                };
                let list: Vec<Attribute> = o
                    .attributes
                    .iter()
                    .filter(|a| type_of(a).map_or(false, |t| types.contains(&t)))
                    .map(copy)
                    .collect();
                Reply::Attributes(Ok(list))
            }
            Request::CreateObject(template) => {
                if refused {
                    return Reply::Handle(Err(refusal()));
                }
                Reply::Handle(Ok(self.insert(template, None)))
            }
            Request::DestroyObject(h) => {
                if refused || self.objects.remove(&h.value).is_none() {
                    return Reply::Unit(Err(refusal()));
                }
                Reply::Unit(Ok(()))
            }
            Request::DeriveKey { mechanism, parameter, base, template } => {
                if refused {
                    return Reply::Handle(Err(refusal()));
                }
                let key = if mechanism == standard.ids.master_mechanism {
                    let carried = self.objects[&base.value].attributes.iter().any(|a| match a {
                        Attribute::Value(v) => *v == parameter,
                        _ => false,
                    });
                    assert!(carried);
                    Xpriv::new_master(bitcoin::Network::Testnet, &parameter).unwrap()
                } else {
                    let word = u32::from_le_bytes([
                        parameter[0],
                        parameter[1],
                        parameter[2],
                        parameter[3],
                    ]);
                    let parent = self.objects[&base.value].key.unwrap();
                    let path = [Child::from(word)];
                    parent.derive_priv(&Secp256k1::new(), &path).unwrap()
                };
                Reply::Handle(Ok(self.insert_key(template, key)))
            }
            Request::SignEcdsa(h, digest) => {
                if refused {
                    return Reply::Signature(Err(refusal()));
                }
                let key = self.objects[&h.value].key.unwrap();
                let secp = Secp256k1::new();
                let sig = secp.sign_ecdsa(&Message::from_digest(digest), &key.private_key);
                let mut bytes = sig.serialize_compact().to_vec();
                if self.high_s {
                    let s = SecretKey::from_slice(&bytes[32..]).unwrap().negate();
                    bytes.truncate(32);
                    bytes.extend_from_slice(&s.secret_bytes());
                }
                Reply::Signature(Ok(bytes))
            }
            Request::DeriveChild(h, child) => {
                let step = standard.derive_child_key(h, child);
                Reply::Derived(drive(self, step))
            }
            Request::DeriveMasterKey(seed, label) => {
                let step = standard.derive_master_key(&seed, &label);
                Reply::Master(drive(self, step))
            }
            Request::DerivePath(h, path) => {
                let step = standard.derive_path(h, &path);
                Reply::Derived(drive(self, step))
            }
            Request::ReadXpub(h) => {
                let step = standard.read_xpub(h);
                Reply::Xpub(drive(self, step))
            }
            Request::MasterFingerprint(h) => {
                let step = standard.master_fingerprint(h);
                Reply::MasterFingerprint(drive(self, step))
            }
            Request::SignSchnorr { key, label: _, path: _, digest } => {
                if refused {
                    return Reply::Schnorr(Err(HsmBackendError::Pkcs11(refusal())));
                }
                let key = self.objects[&key.value].key.unwrap();
                let secp = Secp256k1::new();
                let pair = Keypair::from_secret_key(&secp, &key.private_key);
                let sig = secp.sign_schnorr_no_aux_rand(&Message::from_digest(digest), &pair);
                Reply::Schnorr(Ok(sig.serialize()))
            }
            Request::StrategySign(path, digest) => {
                if refused {
                    return Reply::StrategySignature(Err(Pkcs11Error::Pkcs11(refusal())));
                }
                let ctx = context(self.strategy_key.unwrap());
                let step = FixedKey.sign_input(&ctx, &path, digest);
                Reply::StrategySignature(drive(self, step))
            }
            Request::DecodePolicy(bytes) => Reply::Policy(decode_policy(&bytes)),
            Request::DecodeSigRate(bytes) => Reply::SigRate(decode_times(&bytes)),
            Request::EncodePolicy(p) => Reply::Encoded(if refused {
                Err("no bytes".to_string())
            } else {
                Ok(encode_policy(&p))
            }),
            Request::EncodeSigRate(c) => Reply::Encoded(Ok(encode_times(&c))),
            Request::Now => Reply::Time(self.now),
            Request::BuildMember(i) => {
                if refused {
                    return Reply::Built(Err(Pkcs11Error::Backend("no".to_string())));
                }
                let member = fleet_member(i);
                let step = build_member(member, plain());
                Reply::Built(drive(self, step))
            }
        }
    }
}

fn drive<M: Machine>(token: &mut SoftToken, step: Step<M, M::Out>) -> M::Out {
    let mut step = step;
    loop {
        match step {
            Step::Done(out) => return out,
            Step::Ask(q, m) => {
                let reply = token.answer(q);
                step = m.resume(reply);
            }
        }
    }
}

fn context(handle: ObjectHandle) -> SignerContext {
    SignerContext {
        fingerprint: Fingerprint { bytes: [1, 2, 3, 4] },
        derivation_path: path(FEDERATION),
        chain_code: emvault_pkcs11::bip32::ChainCode { bytes: [5; 32] },
        public_key: PublicKey { bytes: [2; 33] },
        private_key_handle: handle,
    }
}

fn plain() -> SignerOptions {
    SignerOptions { elements: false, taproot: false }
}

const FEDERATION: &str = "m/48'/1'/0'/2'";

fn path(text: &str) -> DerivationPath {
    DerivationPath::parse(text).unwrap()
}

fn seed(byte: u8) -> [u8; 64] {
    [byte; 64]
}

/// The key that the federation path leads to, and the master's fingerprint.
fn expected(byte: u8) -> (Xpriv, [u8; 4]) {
    let secp = Secp256k1::new();
    let master = Xpriv::new_master(bitcoin::Network::Testnet, &seed(byte)).unwrap();
    let p: bitcoin::bip32::DerivationPath = FEDERATION.parse().unwrap();
    (master.derive_priv(&secp, &p).unwrap(), master.fingerprint(&secp).to_bytes())
}

fn derive(token: &mut SoftToken, label: &str, byte: u8, options: SignerOptions) -> Pkcs11Signer {
    let step = Pkcs11Signer::derive_from_seed(
        label,
        &path(FEDERATION),
        Network::Testnet,
        options,
        &seed(byte),
    );
    drive(token, step).unwrap()
}

fn config() -> Pkcs11Config<UtimacoBackend> {
    Pkcs11Config::new(
        "/lib.so".to_string(),
        SlotIdentifier::label("core-test"),
        Pin { text: "1234".to_string() },
        path(FEDERATION),
        UtimacoBackend,
    )
}

fn open(token: &mut SoftToken) -> Pkcs11Session {
    let step = Pkcs11Session::open(&config(), &SlotIdentifier::label("core-test"), "1234");
    drive(token, step).unwrap()
}

// ---------------------------------------------------------------------------
// Sessions
// ---------------------------------------------------------------------------

#[test]
fn connects_and_reads_token_label() {
    let mut token = SoftToken::new();
    let s = open(&mut token);
    assert_eq!(s.slot(), 9);
    let label = drive(&mut token, s.token_label()).unwrap();
    assert!(!label.is_empty(), "non-empty token label");
    assert_eq!(label, "core-test");
}

#[test]
fn a_module_and_a_login_are_shared() {
    let mut token = SoftToken::new();
    open(&mut token);
    open(&mut token);
    assert!(token.initialized && token.logged_in);
    let step = Pkcs11Session::open(&config(), &SlotIdentifier::slot_id(4), "1234");
    assert_eq!(drive(&mut token, step).unwrap().slot(), 4);
}

fn open_error(refuse: Option<&str>, slot: SlotIdentifier, pin: &str) -> String {
    let mut token = SoftToken::new();
    token.refuse = refuse.map(|t| t.to_string());
    let step = Pkcs11Session::open(&config(), &slot, pin);
    match drive(&mut token, step) {
        Ok(_) => panic!("the session was opened"),
        Err(e) => e.to_string(),
    }
}

#[test]
fn what_keeps_a_session_from_opening_is_told() {
    let slot = || SlotIdentifier::label("core-test");
    assert_eq!(
        open_error(Some("LoadLibrary"), slot(), "1234"),
        "failed to load PKCS#11 library at /lib.so: refused"
    );
    assert_eq!(
        open_error(Some("Initialize"), slot(), "1234"),
        "PKCS#11 initialize failed: refused"
    );
    assert_eq!(open_error(Some("SlotsWithToken"), slot(), "1234"), "PKCS#11 error: refused");
    assert_eq!(open_error(Some("SlotLabel"), slot(), "1234"), "PKCS#11 error: refused");
    assert_eq!(open_error(Some("OpenSession"), slot(), "1234"), "PKCS#11 error: refused");
    assert_eq!(open_error(None, slot(), "0000"), "PKCS#11 login failed: refused");
    assert_eq!(
        open_error(None, SlotIdentifier::label("gone"), "1234"),
        "PKCS#11 slot not found: label=gone"
    );
    assert_eq!(
        open_error(None, SlotIdentifier::slot_id(5), "1234"),
        "PKCS#11 slot not found: slot_id=5"
    );
}

#[test]
fn no_token_is_no_slot() {
    let mut token = SoftToken::new();
    token.slots = vec![];
    let step = resolve_slot(&SlotIdentifier::slot_id(5));
    assert_eq!(
        drive(&mut token, step).unwrap_err().to_string(),
        "PKCS#11 slot not found: no slots with tokens (looked for slot_id=5)"
    );
}

// ---------------------------------------------------------------------------
// Keys
// ---------------------------------------------------------------------------

#[test]
fn derives_key_from_seed_and_exports_xpub() {
    let mut token = SoftToken::new();
    open(&mut token);
    let signer = derive(&mut token, "integration-derive", 7, plain());

    assert_eq!(signer.signer_type(), SignerType::Software);
    assert_eq!(
        signer.supported_networks().first(),
        Some(&NetworkType::Bitcoin(Network::Testnet))
    );
    let (key, fingerprint) = expected(7);
    let secp = Secp256k1::new();
    let xpub = signer.xpub();
    assert_eq!(xpub.depth, 4, "expected depth 4 for m/48'/1'/0'/2'");
    assert_eq!(xpub.public_key.bytes, key.private_key.public_key(&secp).serialize());
    assert_eq!(xpub.chain_code.bytes, key.chain_code.to_bytes());
    assert_eq!(xpub.parent_fingerprint.bytes, key.parent_fingerprint.to_bytes());
    assert_eq!(xpub.child_number, ChildNumber::Hardened { index: 2 });
    assert_eq!(signer.fingerprint().bytes, fingerprint);
    let hex: String = fingerprint.iter().map(|b| format!("{b:02x}")).collect();
    assert_eq!(signer.id(), hex);
    assert_eq!(signer.label(), Some("integration-derive"));
    assert_eq!(signer.derivation_path().to_string(), "48'/1'/0'/2'");
    assert!(!signer.capabilities().taproot && !signer.capabilities().blind_signing);

    let h = drive(&mut token, signer.health_check()).unwrap();
    assert!(h.reachable);
    // The passing key that carried the seed is gone.
    assert!(token
        .objects
        .values()
        .all(|o| !o.attributes.contains(&Attribute::Class(ObjectClass::SecretKey))));
}

#[test]
fn the_federation_key_is_ranged() {
    let mut token = SoftToken::new();
    let signer = derive(&mut token, "l", 7, plain());
    match signer.descriptor_key() {
        DescriptorPublicKey::XPub { origin, xkey, derivation_path, wildcard } => {
            assert_eq!(origin.path.to_string(), "48'/1'/0'/2'");
            assert!(origin.fingerprint.same(&signer.fingerprint()));
            assert_eq!(xkey.public_key.bytes, signer.xpub().public_key.bytes);
            assert_eq!(derivation_path.to_string(), "0");
            assert_eq!(*wildcard, Wildcard::Unhardened);
        }
        other => panic!("unexpected variant: {other:?}"),
    }
}

#[test]
fn loads_existing_key_by_label() {
    let mut token = SoftToken::new();
    let label = "integration-load";
    let first = derive(&mut token, label, 7, plain());
    assert_eq!(token.labels(ObjectClass::PrivateKey), vec![priv_label(label)]);
    // A fresh session: what was derived in the old one is gone.
    token.objects.retain(|_, o| o.attributes.contains(&Attribute::Token(true)));
    assert_eq!(token.objects.len(), 1);

    let step = Pkcs11Signer::load(label, path(FEDERATION), Network::Testnet, plain());
    let loaded = drive(&mut token, step).unwrap();
    assert!(loaded.label() == Some(label));
    assert!(loaded.fingerprint().same(&first.fingerprint()));
    assert_eq!(loaded.id(), first.id());
    assert_eq!(loaded.xpub().depth, 4);
    assert_eq!(loaded.xpub().public_key.bytes, first.xpub().public_key.bytes);
    assert_eq!(loaded.xpub().chain_code.bytes, first.xpub().chain_code.bytes);
    assert_eq!(loaded.xpub().child_number, first.xpub().child_number);
    assert!(loaded.xpub().parent_fingerprint.same(&first.xpub().parent_fingerprint));
}

#[test]
fn a_loaded_signer_signs_as_the_derived_one() {
    let mut token = SoftToken::new();
    let first = derive(&mut token, "l", 7, plain());
    let step = Pkcs11Signer::load("l", path(FEDERATION), Network::Testnet, plain());
    let loaded = drive(&mut token, step).unwrap();
    let pk = first.xpub().public_key.bytes;
    let fingerprint = first.fingerprint().bytes;
    let psbt = || {
        let (input, _) = own_input(pk, fingerprint, FEDERATION);
        psbt_of(vec![input], output())
    };
    let (a, result) = drive(&mut token, first.sign_transaction(psbt()));
    result.unwrap();
    let (b, result) = drive(&mut token, loaded.sign_transaction(psbt()));
    result.unwrap();
    assert_eq!(a.inputs[0].partial_sigs[0].signature, b.inputs[0].partial_sigs[0].signature);
}

#[test]
fn what_keeps_a_key_from_being_loaded_is_told() {
    let mut token = SoftToken::new();
    derive(&mut token, "l", 7, plain());
    for name in ["FindObjects", "GetAttributes", "DeriveKey"] {
        token.refuse = Some(name.to_string());
        let step = Pkcs11Signer::load("l", path(FEDERATION), Network::Testnet, plain());
        assert!(drive(&mut token, step).is_err(), "{name}");
    }
}

#[test]
fn no_key_can_be_read_out() {
    let mut token = SoftToken::new();
    derive(&mut token, "l", 7, plain());
    assert_eq!(token.objects.len(), 5);
    for o in token.objects.values() {
        assert!(o.attributes.contains(&Attribute::Sensitive(true)));
        assert!(o.attributes.contains(&Attribute::Extractable(false)));
        assert!(o.attributes.contains(&Attribute::Class(ObjectClass::PrivateKey)));
    }
    // The master key stays; the keys derived from it go with the session.
    let kept = token
        .objects
        .values()
        .filter(|o| o.attributes.contains(&Attribute::Token(true)))
        .count();
    assert_eq!(kept, 1);
}

#[test]
fn a_key_that_is_not_there_is_named() {
    let mut token = SoftToken::new();
    let step = Pkcs11Signer::load("gone", path(FEDERATION), Network::Testnet, plain());
    let e = match drive(&mut token, step) {
        Ok(_) => panic!("the key was loaded"),
        Err(e) => e,
    };
    assert_eq!(e.to_string(), "PKCS#11 object not found: key with label gone");
    assert!(matches!(e, Pkcs11Error::ObjectNotFound(_)));
}

#[test]
fn two_keys_of_one_label_are_ambiguous() {
    let mut token = SoftToken::new();
    derive(&mut token, "twin", 7, plain());
    derive(&mut token, "twin", 8, plain());
    let e = drive(&mut token, find_key_by_label("twin")).unwrap_err();
    assert_eq!(
        e.to_string(),
        "PKCS#11 found 2 objects matching emvault/v1/twin/priv (expected exactly 1)"
    );
}

#[test]
fn a_deleted_key_is_not_found() {
    let mut token = SoftToken::new();
    derive(&mut token, "a", 7, plain());
    derive(&mut token, "b", 8, plain());
    assert!(drive(&mut token, find_key_by_label("a")).unwrap().is_some());
    drive(&mut token, delete_key("a")).unwrap();
    assert!(drive(&mut token, find_key_by_label("a")).unwrap().is_none());
    assert!(drive(&mut token, find_key_by_label("b")).unwrap().is_some());
    assert_eq!(token.labels(ObjectClass::PrivateKey), vec![priv_label("b")]);
}

#[test]
fn seeds_are_sixty_four_bytes_or_none() {
    let mut token = SoftToken::new();
    let standard = StandardDerivation::of(&UtimacoBackend);
    let e = drive(&mut token, standard.derive_master_key(&[1u8; 32], "l")).unwrap_err();
    assert_eq!(
        e.to_string(),
        "BIP-32 derivation error: BIP-32 master seed must be 64 bytes (or empty for backend-resolved seeds), got 32"
    );
    assert!(token.asked.is_empty());
    let made = drive(&mut token, standard.derive_master_key(&[], "l")).unwrap();
    let master = Xpriv::new_master(bitcoin::Network::Testnet, &[0u8; 64]).unwrap();
    let secp = Secp256k1::new();
    assert_eq!(made.fingerprint.bytes, master.fingerprint(&secp).to_bytes());
    assert_eq!(token.labels(ObjectClass::PrivateKey), vec!["l".to_string()]);
}

#[test]
fn a_refused_derivation_still_drops_the_seed() {
    let mut token = SoftToken::new();
    token.refuse = Some("DeriveKey".to_string());
    let standard = StandardDerivation::of(&UtimacoBackend);
    let e = drive(&mut token, standard.derive_master_key(&seed(1), "l")).unwrap_err();
    assert_eq!(e.to_string(), "PKCS#11 error: refused");
    assert!(token.objects.is_empty());
}

#[test]
fn a_path_is_derived_step_by_step() {
    let mut token = SoftToken::new();
    let standard = StandardDerivation::of(&UtimacoBackend);
    let made = drive(&mut token, standard.derive_master_key(&seed(3), "l")).unwrap();
    let child = drive(&mut token, standard.derive_path(made.key_handle, &path("m/1/2'"))).unwrap();
    let x = drive(&mut token, standard.read_xpub(child)).unwrap();
    assert_eq!(x.depth, 2);
    assert_eq!(x.child_number, ChildNumber::Hardened { index: 2 });
    assert_eq!(x.network, NetworkKind::Main);
    let same = drive(&mut token, standard.derive_path(made.key_handle, &path("m"))).unwrap();
    assert_eq!(same.value, made.key_handle.value);
}

// ---------------------------------------------------------------------------
// Policies
// ---------------------------------------------------------------------------

#[test]
fn minimal_hsm_policy_round_trip() {
    let mut token = SoftToken::new();
    let signer = derive(&mut token, "integration-policy", 7, plain());

    let p0 = drive(&mut token, signer.policy()).unwrap();
    assert!(p0 == MinimalHsmPolicy::permissive());

    let custom = MinimalHsmPolicy {
        per_transaction_limit: Some(100_000),
        max_signatures_per_hour: Some(10),
        destination_whitelist: None,
    };
    drive(&mut token, signer.set_policy(&custom)).unwrap();
    let p1 = drive(&mut token, signer.policy()).unwrap();
    assert_eq!(p1.per_transaction_limit, custom.per_transaction_limit);
    assert_eq!(p1.max_signatures_per_hour, custom.max_signatures_per_hour);
    assert_eq!(p1, custom);
}

#[test]
fn a_saved_policy_takes_the_place_of_the_old_one() {
    let mut token = SoftToken::new();
    let limit = |n: u64| MinimalHsmPolicy { per_transaction_limit: Some(n), ..Default::default() };
    for n in [1u64, 2, 3] {
        drive(&mut token, policy::save_policy("a", &limit(n))).unwrap();
        drive(&mut token, policy::save_policy("b", &limit(n + 10))).unwrap();
    }
    assert_eq!(
        token.labels(ObjectClass::Data),
        vec!["emvault/v1/a/policy".to_string(), "emvault/v1/b/policy".to_string()]
    );
    assert_eq!(drive(&mut token, policy::load_policy("a")).unwrap(), limit(3));
    assert_eq!(drive(&mut token, policy::load_policy("b")).unwrap(), limit(13));
    assert_eq!(drive(&mut token, policy::load_policy("c")).unwrap(), MinimalHsmPolicy::permissive());
    let value = encode_policy(&limit(3));
    let object = token
        .objects
        .values()
        .find(|o| o.attributes.contains(&Attribute::Value(value.clone())))
        .unwrap();
    assert_eq!(
        object.attributes,
        vec![
            Attribute::Class(ObjectClass::Data),
            Attribute::Token(true),
            Attribute::Private(true),
            Attribute::Label(b"emvault/v1/a/policy".to_vec()),
            Attribute::Application(b"emvault-pkcs11".to_vec()),
            Attribute::Value(value),
        ]
    );
}

#[test]
fn stores_that_cannot_be_read_are_errors() {
    let mut token = SoftToken::new();
    let label = Attribute::Label(b"emvault/v1/a/policy".to_vec());
    token.insert(vec![Attribute::Class(ObjectClass::Data), label], None);
    match drive(&mut token, policy::load_policy("a")).unwrap_err() {
        Pkcs11Error::ObjectNotFound(t) => assert_eq!(t, "emvault/v1/a/policy"),
        other => panic!("unexpected variant: {other:?}"),
    }
    let label = Attribute::Label(b"emvault/v1/b/policy".to_vec());
    let value = Attribute::Value(b"not json".to_vec());
    token.insert(vec![Attribute::Class(ObjectClass::Data), label, value], None);
    let words = decode_policy(b"not json").unwrap_err();
    assert_eq!(
        drive(&mut token, policy::load_policy("b")).unwrap_err().to_string(),
        format!("serialization error: {words}")
    );
    token.refuse = Some("FindObjects".to_string());
    assert_eq!(
        drive(&mut token, policy::load_policy("b")).unwrap_err().to_string(),
        "PKCS#11 error: refused"
    );
}

#[test]
fn stores_that_cannot_be_written_are_errors() {
    let mut token = SoftToken::new();
    let p = MinimalHsmPolicy::permissive();
    for name in ["FindObjects", "CreateObject"] {
        token.refuse = Some(name.to_string());
        let e = drive(&mut token, policy::save_policy("a", &p)).unwrap_err();
        assert_eq!(e.to_string(), "PKCS#11 error: refused");
    }
    token.refuse = Some("EncodePolicy".to_string());
    let e = drive(&mut token, policy::save_policy("a", &p)).unwrap_err();
    assert_eq!(e.to_string(), "serialization error: no bytes");
    assert!(token.objects.is_empty());
}

#[test]
fn counters_round_trip() {
    let mut token = SoftToken::new();
    assert_eq!(drive(&mut token, policy::load_sigrate("a")).unwrap(), SigRateCounter::new());
    let c = SigRateCounter { timestamps: vec![1, 2, 3] };
    drive(&mut token, policy::save_sigrate("a", &c)).unwrap();
    assert_eq!(drive(&mut token, policy::load_sigrate("a")).unwrap(), c);
    assert_eq!(drive(&mut token, policy::load_sigrate("b")).unwrap(), SigRateCounter::new());
}

#[test]
fn the_ceiling_holds_in_every_hour() {
    let mut token = SoftToken::new();
    let p = MinimalHsmPolicy { max_signatures_per_hour: Some(2), ..Default::default() };
    let mut accepted: Vec<u64> = vec![];
    for now in [10_000u64, 10_001, 10_002, 13_600, 13_601, 13_602, 20_000] {
        token.now = now;
        match drive(&mut token, policy::check_and_record_sigrate("a", &p)) {
            Ok(()) => accepted.push(now),
            Err(e) => assert_eq!(
                e.to_string(),
                "HSM policy violation: sig-rate ceiling reached: 2 signatures in trailing hour, limit 2"
            ),
        }
    }
    // At 13601 the first is more than an hour ago, at 13602 the second is.
    assert_eq!(accepted, vec![10_000, 10_001, 13_601, 13_602, 20_000]);
    let held = drive(&mut token, policy::load_sigrate("a")).unwrap();
    assert_eq!(held.timestamps, vec![20_000]);
}

#[test]
fn a_counter_that_cannot_be_written_is_not_lost() {
    let mut token = SoftToken::new();
    let p = MinimalHsmPolicy { max_signatures_per_hour: Some(5), ..Default::default() };
    let c = SigRateCounter { timestamps: vec![9_000, 9_500] };
    drive(&mut token, policy::save_sigrate("a", &c)).unwrap();
    for name in ["CreateObject", "DestroyObject"] {
        token.refuse = Some(name.to_string());
        let e = drive(&mut token, policy::check_and_record_sigrate("a", &p)).unwrap_err();
        assert_eq!(e.to_string(), "PKCS#11 error: refused");
        token.refuse = None;
        assert_eq!(drive(&mut token, policy::load_sigrate("a")).unwrap(), c);
    }
}

#[test]
fn a_replacement_creates_before_it_destroys() {
    let mut token = SoftToken::new();
    let c = SigRateCounter { timestamps: vec![1] };
    drive(&mut token, policy::save_sigrate("a", &c)).unwrap();
    token.asked.clear();
    drive(&mut token, policy::save_sigrate("a", &c)).unwrap();
    assert_eq!(
        token.asked,
        vec!["FindObjects", "EncodeSigRate", "CreateObject", "DestroyObject"]
    );
    assert_eq!(token.objects.len(), 1);
    // Where the old one stays, the new one is taken back.
    token.refuse = Some("DestroyObject".to_string());
    token.asked.clear();
    assert!(drive(&mut token, policy::save_sigrate("a", &c)).is_err());
    assert_eq!(token.asked.last().unwrap(), "DestroyObject");
    assert_eq!(token.asked.len(), 5);
}

#[test]
fn the_ceiling_can_be_looked_at_alone() {
    let mut token = SoftToken::new();
    let p = MinimalHsmPolicy { max_signatures_per_hour: Some(1), ..Default::default() };
    drive(&mut token, policy::check_sigrate("a", &p)).unwrap();
    drive(&mut token, policy::check_sigrate("a", &p)).unwrap();
    drive(&mut token, policy::check_and_record_sigrate("a", &p)).unwrap();
    assert_eq!(
        drive(&mut token, policy::check_sigrate("a", &p)).unwrap_err().to_string(),
        "HSM policy violation: sig-rate ceiling reached: 1 signatures in trailing hour, limit 1"
    );
    token.asked.clear();
    drive(&mut token, policy::check_sigrate("a", &MinimalHsmPolicy::permissive())).unwrap();
    assert!(token.asked.is_empty());
}

#[test]
fn without_a_ceiling_nothing_is_counted() {
    let mut token = SoftToken::new();
    let p = MinimalHsmPolicy::permissive();
    drive(&mut token, policy::check_and_record_sigrate("a", &p)).unwrap();
    assert!(token.asked.is_empty());
}

#[test]
fn minimal_hsm_policy_rejects_oversized_psbt() {
    let mut token = SoftToken::new();
    let signer = derive(&mut token, "integration-policy-reject", 7, plain());
    let limit = MinimalHsmPolicy { per_transaction_limit: Some(500), ..Default::default() };
    drive(&mut token, signer.set_policy(&limit)).unwrap();

    let a: bitcoin::Address<bitcoin::address::NetworkUnchecked> =
        "tb1qw508d6qejxtdg4y5r3zarvary0c5xw7kxpjzsx".parse().unwrap();
    let script_pubkey = a.assume_checked().script_pubkey().to_bytes();
    let psbt = psbt_of(vec![empty_input()], vec![TxOut { value: 1_000, script_pubkey }]);

    let p = drive(&mut token, signer.policy()).unwrap();
    let err = p.check_against_psbt(&psbt, Network::Testnet).unwrap_err();
    assert!(matches!(err, Pkcs11Error::PolicyViolation(_)));
}

// ---------------------------------------------------------------------------
// Transactions
// ---------------------------------------------------------------------------

fn empty_input() -> PsbtInput {
    PsbtInput {
        bip32_derivation: vec![],
        sighash_type: None,
        witness_script: None,
        witness_utxo: None,
        partial_sigs: vec![],
        tap_key_origins: vec![],
        tap_script_sigs: vec![],
    }
}

fn psbt_of(inputs: Vec<PsbtInput>, output: Vec<TxOut>) -> Psbt {
    let input = inputs
        .iter()
        .map(|_| TxIn { txid: [0u8; 32], vout: 0xffff_ffff, sequence: 0xffff_fffd })
        .collect();
    Psbt { unsigned_tx: Transaction { version: 2, lock_time: 0, input, output }, inputs }
}

fn public_key(key: &Xpriv) -> [u8; 33] {
    key.private_key.public_key(&Secp256k1::new()).serialize()
}

fn multisig_script(keys: &[[u8; 33]]) -> bitcoin::ScriptBuf {
    let mut b = bitcoin::ScriptBuf::builder().push_int(1);
    for k in keys {
        b = b.push_key(&bitcoin::PublicKey::from_slice(k).unwrap());
    }
    b.push_int(keys.len() as i64)
        .push_opcode(bitcoin::opcodes::all::OP_CHECKMULTISIG)
        .into_script()
}

/// An input that the key at this path signs for, and its script.
fn own_input(key: [u8; 33], fingerprint: [u8; 4], text: &str) -> (PsbtInput, bitcoin::ScriptBuf) {
    let script = multisig_script(&[key]);
    let input = PsbtInput {
        bip32_derivation: vec![
            KeyOrigin {
                key: PublicKey { bytes: [3u8; 33] },
                fingerprint: Fingerprint { bytes: [9, 9, 9, 9] },
                path: path("m/1"),
            },
            KeyOrigin {
                key: PublicKey { bytes: key },
                fingerprint: Fingerprint { bytes: fingerprint },
                path: path(text),
            },
        ],
        witness_script: Some(script.to_bytes()),
        witness_utxo: Some(TxOut { value: 50_000, script_pubkey: script.to_p2wsh().to_bytes() }),
        ..empty_input()
    };
    (input, script)
}

fn output() -> Vec<TxOut> {
    vec![TxOut { value: 50_000, script_pubkey: vec![0x51] }]
}

/// The transaction as the bitcoin crate has it.
fn bitcoin_tx(tx: &Transaction) -> bitcoin::Transaction {
    bitcoin::Transaction {
        version: bitcoin::transaction::Version(tx.version),
        lock_time: bitcoin::absolute::LockTime::from_consensus(tx.lock_time),
        input: tx
            .input
            .iter()
            .map(|i| bitcoin::TxIn {
                previous_output: bitcoin::OutPoint {
                    txid: bitcoin::Txid::from_byte_array(i.txid),
                    vout: i.vout,
                },
                script_sig: bitcoin::ScriptBuf::new(),
                sequence: bitcoin::Sequence(i.sequence),
                witness: bitcoin::Witness::new(),
            })
            .collect(),
        output: tx
            .output
            .iter()
            .map(|o| bitcoin::TxOut {
                value: bitcoin::Amount::from_sat(o.value),
                script_pubkey: bitcoin::ScriptBuf::from(o.script_pubkey.clone()),
            })
            .collect(),
    }
}

fn p2wsh_digest(psbt: &Psbt, index: usize, script: &bitcoin::ScriptBuf, kind: u32) -> [u8; 32] {
    let tx = bitcoin_tx(&psbt.unsigned_tx);
    bitcoin::sighash::SighashCache::new(&tx)
        .p2wsh_signature_hash(
            index,
            script,
            bitcoin::Amount::from_sat(50_000),
            bitcoin::EcdsaSighashType::from_consensus(kind),
        )
        .unwrap()
        .to_byte_array()
}

fn verifies(signature: &[u8], digest: [u8; 32], key: &[u8]) -> bool {
    let sig = bitcoin::secp256k1::ecdsa::Signature::from_compact(signature).unwrap();
    let key = bitcoin::secp256k1::PublicKey::from_slice(key).unwrap();
    Secp256k1::new().verify_ecdsa(&Message::from_digest(digest), &sig, &key).is_ok()
}

#[test]
fn signing_dispatches_via_bdk_transaction_signer() {
    let mut token = SoftToken::new();
    let label = "integration-bdk-sign";
    let signer = derive(&mut token, label, 7, plain());
    let pk = signer.xpub().public_key.bytes;
    let (input, script) = own_input(pk, signer.fingerprint().bytes, FEDERATION);
    let psbt = psbt_of(vec![input], output());

    let (psbt, result) = drive(&mut token, signer.sign_transaction(psbt));
    result.unwrap();
    assert_eq!(
        psbt.inputs[0].partial_sigs.len(),
        1,
        "exactly one partial signature inserted"
    );
    let sig = &psbt.inputs[0].partial_sigs[0];
    assert_eq!(sig.key, pk.to_vec());
    assert_eq!(sig.sighash_type, 1);
    assert!(verifies(&sig.signature, p2wsh_digest(&psbt, 0, &script, 1), &pk));
    // Without a ceiling the counter is left alone.
    let counter = drive(&mut token, policy::load_sigrate(label)).unwrap();
    assert!(counter.timestamps.is_empty());
}

#[test]
fn children_sign_and_are_destroyed() {
    let mut token = SoftToken::new();
    token.high_s = true;
    let signer = derive(&mut token, "l", 7, plain());
    let (federation, fingerprint) = expected(7);
    let secp = Secp256k1::new();
    let relative: bitcoin::bip32::DerivationPath = "m/1/5".parse().unwrap();
    let child = federation.derive_priv(&secp, &relative).unwrap();
    let pk = public_key(&child);
    let text = format!("{FEDERATION}/1/5");
    let (mut input, script) = own_input(pk, fingerprint, &text);
    input.sighash_type = Some(0x83);
    let psbt = psbt_of(vec![empty_input(), input], output());

    let before: Vec<u64> = token.objects.keys().copied().collect();
    let (psbt, result) = drive(&mut token, signer.sign_transaction(psbt));
    result.unwrap();
    assert!(psbt.inputs[0].partial_sigs.is_empty());
    let sig = &psbt.inputs[1].partial_sigs[0];
    assert_eq!(sig.sighash_type, 0x83);
    let digest = p2wsh_digest(&psbt, 1, &script, 0x83);
    assert!(verifies(&sig.signature, digest, &pk));
    // The key that signed is gone; the one in between goes with the session.
    let after: Vec<u64> = token.objects.keys().copied().collect();
    assert_eq!(after.len(), before.len() + 1);
    assert!(before.iter().all(|h| after.contains(h)));
    let last = token.asked.last().unwrap();
    assert_eq!(last, "DestroyObject");
}

#[test]
fn a_stranger_leaves_the_transaction_alone() {
    let mut token = SoftToken::new();
    let signer = derive(&mut token, "l", 7, plain());
    let (input, _) = own_input([2u8; 33], [1, 1, 1, 1], FEDERATION);
    token.asked.clear();
    let step = signer.sign_transaction(psbt_of(vec![input], output()));
    let (psbt, result) = drive(&mut token, step);
    result.unwrap();
    assert!(psbt.inputs[0].partial_sigs.is_empty());
    assert_eq!(token.asked, vec!["FindObjects".to_string()]);
}

#[test]
fn a_forbidden_transaction_is_not_signed() {
    let mut token = SoftToken::new();
    let signer = derive(&mut token, "l", 7, plain());
    let limit = MinimalHsmPolicy { per_transaction_limit: Some(500), ..Default::default() };
    drive(&mut token, signer.set_policy(&limit)).unwrap();
    let pk = signer.xpub().public_key.bytes;
    let (input, _) = own_input(pk, signer.fingerprint().bytes, FEDERATION);
    token.asked.clear();
    let step = signer.sign_transaction(psbt_of(vec![input], output()));
    let (psbt, result) = drive(&mut token, step);
    assert_eq!(
        result.unwrap_err(),
        "HSM policy violation: PSBT output total 0.00050000 BTC exceeds per-transaction limit 0.00000500 BTC"
    );
    assert!(psbt.inputs[0].partial_sigs.is_empty());
    assert_eq!(token.asked, vec!["FindObjects", "GetAttributes", "DecodePolicy"]);
}

#[test]
fn one_signature_is_counted_per_transaction() {
    let mut token = SoftToken::new();
    let signer = derive(&mut token, "l", 7, plain());
    let ceiling = MinimalHsmPolicy { max_signatures_per_hour: Some(1), ..Default::default() };
    drive(&mut token, signer.set_policy(&ceiling)).unwrap();
    let pk = signer.xpub().public_key.bytes;
    let fingerprint = signer.fingerprint().bytes;
    let two = || {
        let (a, _) = own_input(pk, fingerprint, FEDERATION);
        let (b, _) = own_input(pk, fingerprint, FEDERATION);
        psbt_of(vec![a, b], output())
    };
    let (psbt, result) = drive(&mut token, signer.sign_transaction(two()));
    result.unwrap();
    assert_eq!(psbt.inputs[1].partial_sigs.len(), 1);
    let counter = drive(&mut token, policy::load_sigrate("l")).unwrap();
    assert_eq!(counter.timestamps, vec![10_000]);
    token.asked.clear();
    let (psbt, result) = drive(&mut token, signer.sign_transaction(two()));
    assert_eq!(
        result.unwrap_err(),
        "HSM policy violation: sig-rate ceiling reached: 1 signatures in trailing hour, limit 1"
    );
    // The ceiling comes first: nothing was signed.
    assert!(psbt.inputs.iter().all(|i| i.partial_sigs.is_empty()));
    assert_eq!(
        token.asked,
        vec![
            "FindObjects",
            "GetAttributes",
            "DecodePolicy",
            "FindObjects",
            "GetAttributes",
            "DecodeSigRate",
            "Now",
        ]
    );
    // A transaction with nothing to sign is no matter of the ceiling.
    let (stranger, _) = own_input([2u8; 33], [1, 1, 1, 1], FEDERATION);
    let step = signer.sign_transaction(psbt_of(vec![stranger], output()));
    let (_, result) = drive(&mut token, step);
    result.unwrap();
    // An hour and a second later there is room again.
    token.now += 3601;
    let (psbt, result) = drive(&mut token, signer.sign_transaction(two()));
    result.unwrap();
    assert_eq!(psbt.inputs[0].partial_sigs.len(), 1);
    assert!(token.asked.contains(&"SignEcdsa".to_string()));
}

/// A signer with a ceiling, and two inputs of its own of which the second cannot be
/// signed.
fn half_signable(token: &mut SoftToken) -> (Pkcs11Signer, Psbt) {
    let signer = derive(token, "l", 7, plain());
    let ceiling = MinimalHsmPolicy { max_signatures_per_hour: Some(3), ..Default::default() };
    drive(token, signer.set_policy(&ceiling)).unwrap();
    let pk = signer.xpub().public_key.bytes;
    let fingerprint = signer.fingerprint().bytes;
    let (a, _) = own_input(pk, fingerprint, FEDERATION);
    let (mut b, _) = own_input(pk, fingerprint, FEDERATION);
    b.witness_utxo = None;
    (signer, psbt_of(vec![a, b], output()))
}

#[test]
fn what_was_signed_before_an_error_is_counted() {
    let mut token = SoftToken::new();
    let (signer, psbt) = half_signable(&mut token);
    let (psbt, result) = drive(&mut token, signer.sign_transaction(psbt));
    assert_eq!(result.unwrap_err(), "input 1 missing witness_utxo");
    assert_eq!(psbt.inputs[0].partial_sigs.len(), 1);
    assert!(psbt.inputs[1].partial_sigs.is_empty());
    let counter = drive(&mut token, policy::load_sigrate("l")).unwrap();
    assert_eq!(counter.timestamps, vec![10_000]);
}

#[test]
fn what_cannot_be_counted_is_not_handed_back() {
    let mut token = SoftToken::new();
    let (signer, psbt) = half_signable(&mut token);
    token.refuse = Some("CreateObject".to_string());
    let (psbt, result) = drive(&mut token, signer.sign_transaction(psbt));
    assert_eq!(result.unwrap_err(), "input 1 missing witness_utxo");
    assert!(psbt.inputs.iter().all(|i| i.partial_sigs.is_empty()));

    let pk = signer.xpub().public_key.bytes;
    let (input, _) = own_input(pk, signer.fingerprint().bytes, FEDERATION);
    let step = signer.sign_transaction(psbt_of(vec![input], output()));
    let (psbt, result) = drive(&mut token, step);
    assert_eq!(result.unwrap_err(), "PKCS#11 error: refused");
    assert!(psbt.inputs[0].partial_sigs.is_empty());
    assert!(token.asked.contains(&"SignEcdsa".to_string()));
    token.refuse = None;
    assert_eq!(drive(&mut token, policy::load_sigrate("l")).unwrap(), SigRateCounter::new());
}

#[test]
fn signatures_of_others_stay() {
    let mut token = SoftToken::new();
    let signer = derive(&mut token, "l", 7, plain());
    let pk = signer.xpub().public_key.bytes;
    let (mut input, _) = own_input(pk, signer.fingerprint().bytes, FEDERATION);
    let other = || PartialSig { key: vec![3u8; 33], signature: vec![1, 2, 3], sighash_type: 1 };
    input.partial_sigs.push(other());
    let step = signer.sign_transaction(psbt_of(vec![input], output()));
    let (psbt, result) = drive(&mut token, step);
    result.unwrap();
    let sigs = &psbt.inputs[0].partial_sigs;
    assert_eq!(sigs.len(), 2);
    assert_eq!(sigs[0].key, other().key);
    assert_eq!(sigs[0].signature, other().signature);
    assert_eq!(sigs[1].key, pk.to_vec());
}

fn signing_error(change: fn(&mut PsbtInput), refuse: Option<&str>) -> String {
    let mut token = SoftToken::new();
    let signer = derive(&mut token, "l", 7, plain());
    let pk = signer.xpub().public_key.bytes;
    let (mut input, _) = own_input(pk, signer.fingerprint().bytes, FEDERATION);
    change(&mut input);
    token.refuse = refuse.map(|t| t.to_string());
    let step = signer.sign_transaction(psbt_of(vec![input], output()));
    let (psbt, result) = drive(&mut token, step);
    assert!(psbt.inputs[0].partial_sigs.is_empty());
    result.unwrap_err()
}

#[test]
fn what_keeps_an_input_from_being_signed_is_told() {
    assert_eq!(
        signing_error(|i| i.witness_script = None, None),
        "input 0 missing witness_script (only P2WSH multi-sig is supported by Pkcs11Signer in v1)"
    );
    assert_eq!(signing_error(|i| i.witness_utxo = None, None), "input 0 missing witness_utxo");
    assert_eq!(
        signing_error(|i| i.sighash_type = Some(0x7), None),
        "invalid sighash type: non-standard sighash type 7"
    );
    assert_eq!(signing_error(|_| {}, Some("SignEcdsa")), "PKCS#11 error: refused");
    assert_eq!(
        signing_error(|i| i.bip32_derivation[1].path = path("m/48'"), None),
        "input 0 BIP-32 path 48' is shorter than this signer's federation path 48'/1'/0'/2'"
    );
}

// ---------------------------------------------------------------------------
// Taproot
// ---------------------------------------------------------------------------

fn leaf_script(key: &XOnlyPublicKey) -> bitcoin::ScriptBuf {
    bitcoin::ScriptBuf::builder()
        .push_x_only_key(key)
        .push_opcode(bitcoin::opcodes::all::OP_CHECKSIG)
        .into_script()
}

fn tap_input(key: &Xpriv, fingerprint: [u8; 4], text: &str) -> (PsbtInput, [u8; 32]) {
    let secp = Secp256k1::new();
    let (x, _) = key.private_key.x_only_public_key(&secp);
    let leaf = bitcoin::TapLeafHash::from_script(
        &leaf_script(&x),
        bitcoin::taproot::LeafVersion::TapScript,
    )
    .to_byte_array();
    let input = PsbtInput {
        witness_utxo: Some(TxOut { value: 50_000, script_pubkey: vec![0x51, 0x20] }),
        tap_key_origins: vec![TapKeyOrigin {
            key: x.serialize(),
            leaf_hashes: vec![leaf],
            fingerprint: Fingerprint { bytes: fingerprint },
            path: path(text),
        }],
        ..empty_input()
    };
    (input, leaf)
}

#[test]
fn taproot_leaves_are_signed() {
    let mut token = SoftToken::new();
    let options = SignerOptions { elements: false, taproot: true };
    let signer = derive(&mut token, "l", 7, options);
    assert!(signer.capabilities().taproot);
    let (federation, fingerprint) = expected(7);
    let secp = Secp256k1::new();
    let relative: bitcoin::bip32::DerivationPath = "m/0".parse().unwrap();
    let child = federation.derive_priv(&secp, &relative).unwrap();
    let text = format!("{FEDERATION}/0");
    let (input, leaf) = tap_input(&child, fingerprint, &text);
    let psbt = psbt_of(vec![input], output());
    let (psbt, result) = drive(&mut token, signer.sign_transaction(psbt));
    result.unwrap();
    let sig = &psbt.inputs[0].tap_script_sigs[0];
    assert_eq!(psbt.inputs[0].tap_script_sigs.len(), 1);
    assert_eq!(sig.leaf_hash, leaf);
    assert_eq!(sig.sighash_type, 0);

    let (x, _) = child.private_key.x_only_public_key(&secp);
    assert_eq!(sig.key, x.serialize());
    let tx = bitcoin_tx(&psbt.unsigned_tx);
    let spent = bitcoin::TxOut {
        value: bitcoin::Amount::from_sat(50_000),
        script_pubkey: bitcoin::ScriptBuf::from(vec![0x51, 0x20]),
    };
    let digest = bitcoin::sighash::SighashCache::new(&tx)
        .taproot_script_spend_signature_hash(
            0,
            &bitcoin::sighash::Prevouts::All(&[spent]),
            bitcoin::TapLeafHash::from_byte_array(leaf),
            bitcoin::TapSighashType::Default,
        )
        .unwrap()
        .to_byte_array();
    let schnorr = bitcoin::secp256k1::schnorr::Signature::from_slice(&sig.signature).unwrap();
    secp.verify_schnorr(&schnorr, &Message::from_digest(digest), &x).unwrap();
}

#[test]
fn taproot_wants_a_taproot_signer() {
    let mut token = SoftToken::new();
    let signer = derive(&mut token, "l", 7, plain());
    let (federation, fingerprint) = expected(7);
    let (input, _) = tap_input(&federation, fingerprint, FEDERATION);
    let (psbt, result) = drive(&mut token, signer.sign_transaction(psbt_of(vec![input], output())));
    assert!(result.unwrap_err().contains("Taproot"));
    assert!(psbt.inputs[0].tap_script_sigs.is_empty());
}

#[test]
fn a_refused_leaf_leaves_no_signature() {
    let mut token = SoftToken::new();
    let options = SignerOptions { elements: false, taproot: true };
    let signer = derive(&mut token, "l", 7, options);
    let (federation, fingerprint) = expected(7);
    let (input, _) = tap_input(&federation, fingerprint, FEDERATION);
    token.refuse = Some("SignSchnorr".to_string());
    let (psbt, result) = drive(&mut token, signer.sign_transaction(psbt_of(vec![input], output())));
    assert_eq!(result.unwrap_err(), "PKCS#11 error: refused");
    assert!(psbt.inputs[0].tap_script_sigs.is_empty());
}

// ---------------------------------------------------------------------------
// Strategies
// ---------------------------------------------------------------------------

fn key_on(token: &mut SoftToken) -> ObjectHandle {
    let (key, _) = expected(7);
    token.insert_key(vec![Attribute::Class(ObjectClass::PrivateKey)], key)
}

#[test]
fn fixed_keys_sign_whatever_the_path() {
    let mut token = SoftToken::new();
    token.high_s = true;
    let h = key_on(&mut token);
    let ctx = context(h);
    let (key, _) = expected(7);
    let sig = drive(&mut token, FixedKey.sign_input(&ctx, &path("m/9"), [4u8; 32])).unwrap();
    assert!(verifies(&sig, [4u8; 32], &public_key(&key)));
    let same = drive(&mut token, SoftwareTweakDev.sign_input(&ctx, &path("m"), [4u8; 32])).unwrap();
    assert_eq!(sig, same);
    match FixedKey.descriptor_key(&ctx).unwrap() {
        DescriptorPublicKey::Single { origin, key } => {
            assert_eq!(origin.path.to_string(), "48'/1'/0'/2'");
            assert_eq!(key.bytes, ctx.public_key.bytes);
        }
        other => panic!("unexpected variant: {other:?}"),
    }
}

#[test]
fn native_derivation_wants_the_mechanism() {
    let mut token = SoftToken::new();
    let h = key_on(&mut token);
    let ctx = context(h);
    let missing = HsmNativeBip32::new(MechanismType::new_vendor_defined(0x8000_0005).unwrap());
    let e = drive(&mut token, missing.descriptor_key(&ctx)).unwrap_err();
    let number = cryptoki::mechanism::MechanismType::new_vendor_defined(0x8000_0005).unwrap();
    assert_eq!(
        e.to_string(),
        format!(
            "BIP-32 derivation unsupported by HsmNativeBip32: mechanism {number:?} not advertised by token"
        )
    );
    let known = HsmNativeBip32::new(MechanismType::ecdsa());
    match drive(&mut token, known.descriptor_key(&ctx)).unwrap() {
        DescriptorPublicKey::XPub { xkey, derivation_path, wildcard, .. } => {
            assert_eq!(xkey.depth, 4);
            assert_eq!(xkey.child_number, ChildNumber::Hardened { index: 2 });
            assert_eq!(xkey.network, NetworkKind::Test);
            assert_eq!(xkey.parent_fingerprint.bytes, [0; 4]);
            assert!(derivation_path.segments.is_empty());
            assert_eq!(wildcard, Wildcard::Unhardened);
        }
        other => panic!("unexpected variant: {other:?}"),
    }
    let e = drive(&mut token, known.sign_input(&ctx, &path("m/1/2'"), [4u8; 32])).unwrap_err();
    let ecdsa = cryptoki::mechanism::MechanismType::ECDSA;
    assert_eq!(
        e.to_string(),
        format!(
            "BIP-32 derivation unsupported by HsmNativeBip32: vendor-specific derivation invocation for mechanism {ecdsa:?} at path 1/2' not implemented in v1; configure FixedKey or supply a custom strategy"
        )
    );
    token.refuse = Some("MechanismList".to_string());
    let e = drive(&mut token, known.descriptor_key(&ctx)).unwrap_err();
    assert_eq!(e.to_string(), "PKCS#11 error: refused");
}

// ---------------------------------------------------------------------------
// Elements
// ---------------------------------------------------------------------------

fn elements_script(keys: &mut Vec<[u8; 33]>) -> elements::Script {
    keys.sort();
    let mut b = elements::script::Builder::new().push_int(2);
    for k in keys.iter() {
        b = b.push_slice(k);
    }
    b.push_int(keys.len() as i64)
        .push_opcode(elements::opcodes::all::OP_CHECKMULTISIG)
        .into_script()
}

fn explicit(value: u64, script_pubkey: elements::Script) -> elements::TxOut {
    elements::TxOut {
        asset: elements::confidential::Asset::Explicit(elements::AssetId::default()),
        value: elements::confidential::Value::Explicit(value),
        nonce: elements::confidential::Nonce::Null,
        script_pubkey,
        witness: elements::TxOutWitness::default(),
    }
}

fn elements_tx(script: &elements::Script) -> elements::Transaction {
    elements::Transaction {
        version: 2,
        lock_time: elements::LockTime::ZERO,
        input: vec![elements::TxIn {
            previous_output: elements::OutPoint {
                txid: elements::Txid::from_raw_hash(bitcoin::hashes::sha256d::Hash::hash(b"previous")),
                vout: 0,
            },
            is_pegin: false,
            script_sig: elements::Script::new(),
            sequence: elements::Sequence::MAX,
            asset_issuance: elements::AssetIssuance::default(),
            witness: elements::TxInWitness::default(),
        }],
        output: vec![
            explicit(90_000, script.clone()),
            explicit(10_000, elements::Script::new()),
        ],
    }
}

/// A transaction that spends what three signers hold, two of which are enough.
fn synthetic_pset(signers: &[Pkcs11Signer]) -> (Pset, elements::Transaction, elements::Script) {
    let mut keys: Vec<[u8; 33]> = signers.iter().map(|s| s.xpub().public_key.bytes).collect();
    let script = elements_script(&mut keys);
    let tx = elements_tx(&script);
    let input = PsetInput {
        bip32_derivation: signers
            .iter()
            .map(|s| PsetKeyOrigin {
                key: s.xpub().public_key.bytes.to_vec(),
                fingerprint: s.fingerprint(),
                path: path(FEDERATION),
            })
            .collect(),
        sighash_type: Some(1),
        witness_script: Some(script.to_bytes()),
        witness_value: Some(elements::encode::serialize(
            &elements::confidential::Value::Explicit(100_000),
        )),
        partial_sigs: vec![],
    };
    let pset = Pset {
        unsigned_tx: Ok(ElementsTx {
            version: tx.version,
            lock_time: tx.lock_time.to_consensus_u32(),
            input: tx.input.iter().map(|i| elements::encode::serialize(i)).collect(),
            output: tx.output.iter().map(|o| elements::encode::serialize(o)).collect(),
        }),
        inputs: vec![input],
    };
    (pset, tx, script)
}

fn three_signers(prefix: &str) -> Vec<(SoftToken, Pkcs11Signer)> {
    let mut out: Vec<(SoftToken, Pkcs11Signer)> = vec![];
    for i in [1u8, 2, 3] {
        let mut token = SoftToken::new();
        token.high_s = i == 2;
        let options = SignerOptions { elements: true, taproot: false };
        let signer = derive(&mut token, &format!("{prefix}-{i}"), i, options);
        token.strategy_key = Some(signer.loaded_key().private_key);
        out.push((token, signer));
    }
    out
}

fn setup(prefix: &str) -> (Vec<SoftToken>, Vec<Pkcs11Signer>) {
    three_signers(prefix).into_iter().unzip()
}

#[test]
fn pset_signing_2of3_produces_partial_sigs() {
    let (mut tokens, signers) = setup("elements-e2e");
    let (mut pset, _, _) = synthetic_pset(&signers);
    for (i, signer) in signers.iter().enumerate() {
        let (next, count) = drive(&mut tokens[i], signer.sign_pset(pset));
        pset = next;
        assert_eq!(count.unwrap(), 1, "signer {i} should have signed exactly 1 input");
    }
    assert_eq!(
        pset.inputs[0].partial_sigs.len(),
        3,
        "all 3 signers should have inserted partial sigs"
    );
}

#[test]
fn pset_partial_sigs_are_valid_ecdsa() {
    let secp = Secp256k1::new();
    let (mut tokens, signers) = setup("elements-verify");
    let (mut pset, tx, script) = synthetic_pset(&signers);
    for (i, signer) in signers.iter().enumerate() {
        let (next, count) = drive(&mut tokens[i], signer.sign_pset(pset));
        pset = next;
        count.unwrap();
    }
    let sighash = elements::sighash::SighashCache::new(&tx).segwitv0_sighash(
        0,
        &script,
        elements::confidential::Value::Explicit(100_000),
        elements::EcdsaSighashType::All,
    );
    let msg = Message::from_digest(elements::hashes::Hash::to_byte_array(sighash));
    assert_eq!(pset.inputs[0].partial_sigs.len(), 3);
    for sig in &pset.inputs[0].partial_sigs {
        let bytes = &sig.signature;
        assert!(bytes.len() > 1, "signature bytes too short: {}", bytes.len());
        assert_eq!(
            bytes[bytes.len() - 1],
            elements::EcdsaSighashType::All.as_u32() as u8,
            "sighash flag should be SIGHASH_ALL"
        );
        let parsed = bitcoin::secp256k1::ecdsa::Signature::from_der(&bytes[..bytes.len() - 1])
            .expect("DER-decode signature");
        let pk = bitcoin::secp256k1::PublicKey::from_slice(&sig.key).unwrap();
        secp.verify_ecdsa(&msg, &parsed, &pk).unwrap();
    }
}

#[test]
fn pset_signing_skips_inputs_without_our_fingerprint() {
    let (mut tokens, signers) = setup("elements-skip");
    let (mut pset, _, _) = synthetic_pset(&signers);
    pset.inputs[0].bip32_derivation.remove(2);

    let (next, count) = drive(&mut tokens[2], signers[2].sign_pset(pset));
    pset = next;
    assert_eq!(
        count.unwrap(),
        0,
        "signer whose fingerprint was removed should sign 0 inputs"
    );
    let (next, c1) = drive(&mut tokens[0], signers[0].sign_pset(pset));
    let (next, c2) = drive(&mut tokens[1], signers[1].sign_pset(next));
    assert_eq!(c1.unwrap(), 1);
    assert_eq!(c2.unwrap(), 1);
    assert_eq!(next.inputs[0].partial_sigs.len(), 2);
}

#[test]
fn pset_signing_idempotent() {
    let (mut tokens, signers) = setup("elements-idem");
    let (pset, _, _) = synthetic_pset(&signers);
    let (pset, c1) = drive(&mut tokens[0], signers[0].sign_pset(pset));
    let (pset, c2) = drive(&mut tokens[0], signers[0].sign_pset(pset));
    assert_eq!(c1.unwrap(), 1, "first sign should produce 1 signature");
    c2.unwrap();
    assert_eq!(
        pset.inputs[0].partial_sigs.len(),
        1,
        "double-sign should not produce duplicate entries"
    );
}

fn pset_error(change: fn(&mut Pset), refuse: Option<&str>) -> PsetError {
    let (mut tokens, signers) = setup("elements-error");
    let (mut pset, _, _) = synthetic_pset(&signers);
    change(&mut pset);
    tokens[0].refuse = refuse.map(|t| t.to_string());
    let (_, count) = drive(&mut tokens[0], signers[0].sign_pset(pset));
    count.unwrap_err()
}

fn elements_words(e: PsetError) -> String {
    match e {
        PsetError::Elements(t) => t,
        other => panic!("unexpected variant: {other:?}"),
    }
}

#[test]
fn what_keeps_a_pset_from_being_signed_is_told() {
    assert_eq!(
        elements_words(pset_error(|p| p.inputs[0].witness_script = None, None)),
        "input 0 missing witness_script (only P2WSH multi-sig is supported by Pkcs11Signer in v1)"
    );
    assert_eq!(
        elements_words(pset_error(|p| p.inputs[0].witness_value = None, None)),
        "input 0 missing witness_utxo"
    );
    assert_eq!(
        elements_words(pset_error(|p| p.unsigned_tx = Err("no inputs".to_string()), None)),
        "no inputs"
    );
    let e = pset_error(|p| p.inputs[0].witness_value = Some(vec![0x77]), None);
    assert!(!elements_words(e).is_empty());
    for name in ["FindObjects", "StrategySign"] {
        match pset_error(|_| {}, Some(name)) {
            PsetError::SignerBackend(t) => assert_eq!(t, "PKCS#11 error: refused"),
            other => panic!("unexpected variant: {other:?}"),
        }
    }
}

#[test]
fn a_pset_counts_against_the_ceiling() {
    let (mut tokens, signers) = setup("elements-rate");
    let ceiling = MinimalHsmPolicy { max_signatures_per_hour: Some(1), ..Default::default() };
    drive(&mut tokens[0], signers[0].set_policy(&ceiling)).unwrap();
    let (pset, _, _) = synthetic_pset(&signers);
    let (pset, count) = drive(&mut tokens[0], signers[0].sign_pset(pset));
    assert_eq!(count.unwrap(), 1);
    tokens[0].asked.clear();
    let (_, count) = drive(&mut tokens[0], signers[0].sign_pset(pset));
    assert!(!tokens[0].asked.contains(&"StrategySign".to_string()));
    match count.unwrap_err() {
        PsetError::SignerBackend(t) => assert_eq!(
            t,
            "HSM policy violation: sig-rate ceiling reached: 1 signatures in trailing hour, limit 1"
        ),
        other => panic!("unexpected variant: {other:?}"),
    }
}

#[test]
fn a_pset_that_cannot_be_counted_comes_back_as_it_was() {
    let (mut tokens, signers) = setup("elements-uncounted");
    let ceiling = MinimalHsmPolicy { max_signatures_per_hour: Some(1), ..Default::default() };
    drive(&mut tokens[0], signers[0].set_policy(&ceiling)).unwrap();
    let (pset, _, _) = synthetic_pset(&signers);
    tokens[0].refuse = Some("CreateObject".to_string());
    let (pset, count) = drive(&mut tokens[0], signers[0].sign_pset(pset));
    assert!(tokens[0].asked.contains(&"StrategySign".to_string()));
    assert!(pset.inputs.iter().all(|i| i.partial_sigs.is_empty()));
    match count.unwrap_err() {
        PsetError::SignerBackend(t) => assert_eq!(t, "PKCS#11 error: refused"),
        other => panic!("unexpected variant: {other:?}"),
    }
}

#[test]
fn other_sighash_types_of_a_pset_are_all() {
    let (mut tokens, signers) = setup("elements-kind");
    let (mut pset, _, _) = synthetic_pset(&signers);
    pset.inputs[0].sighash_type = Some(0x42);
    let (pset, _) = drive(&mut tokens[0], signers[0].sign_pset(pset));
    assert_eq!(pset.inputs[0].partial_sigs[0].signature.last(), Some(&1u8));
    let (mut pset, _, _) = synthetic_pset(&signers);
    pset.inputs[0].sighash_type = Some(0x82);
    let (pset, _) = drive(&mut tokens[0], signers[0].sign_pset(pset));
    assert_eq!(pset.inputs[0].partial_sigs[0].signature.last(), Some(&0x82u8));
}

#[test]
fn an_elements_signer_names_both_networks() {
    let (_, signers) = setup("elements-networks");
    assert_eq!(
        signers[0].supported_networks(),
        vec![
            NetworkType::Bitcoin(Network::Testnet),
            NetworkType::Elements(ElementsNetworkId::LiquidTestnet),
        ]
    );
    assert!(signers[0].capabilities().blind_signing);
}

// ---------------------------------------------------------------------------
// Signers of a fleet
// ---------------------------------------------------------------------------

fn fleet_member(i: usize) -> MemberEnv {
    MemberEnv {
        vendor: "dev".to_string(),
        label: format!("m{i}"),
        library_path: "/lib.so".to_string(),
        slot: SlotIdentifier::label("core-test"),
        pin: Pin { text: "1234".to_string() },
        derivation_path: path(FEDERATION),
        network: Network::Testnet,
        key_init: KeyInit::DeriveFromSeed(seed(i as u8 + 1).to_vec()),
    }
}

fn fleet(paths: &[&str]) -> Vec<FleetMember<()>> {
    paths
        .iter()
        .map(|p| FleetMember {
            vendor: "dev".to_string(),
            label: "l".to_string(),
            library_path: "/lib.so".to_string(),
            slot: SlotIdentifier::label("core-test"),
            pin: Pin { text: "1234".to_string() },
            derivation_path: path(p),
            network: Network::Testnet,
            make_backend: (),
            key_init: KeyInit::Load,
        })
        .collect()
}

#[test]
fn a_fleet_becomes_signers() {
    let mut token = SoftToken::new();
    let step = Fleet::build_signers(&fleet(&["m/1", "m/2", "m/3"]));
    let signers = match drive(&mut token, step) {
        Ok(s) => s,
        Err(e) => panic!("{e:?}"),
    };
    let labels: Vec<Option<&str>> = signers.iter().map(|s| s.label()).collect();
    assert_eq!(labels, vec![Some("m0"), Some("m1"), Some("m2")]);
    for (i, s) in signers.iter().enumerate() {
        assert_eq!(s.derivation_path().to_string(), "48'/1'/0'/2'");
        assert_eq!(s.fingerprint().bytes, expected(i as u8 + 1).1);
    }
}

#[test]
fn a_degenerate_fleet_becomes_nothing() {
    let mut token = SoftToken::new();
    let step = Fleet::build_signers(&fleet(&["m/1", "m/2", "m/1"]));
    let e = match drive(&mut token, step) {
        Ok(_) => panic!("the fleet was built"),
        Err(e) => e.to_string(),
    };
    assert_eq!(
        e,
        "invalid PKCS#11 configuration: degenerate fleet: cosigners 0 and 2 resolve to the same key"
    );
    assert!(token.asked.is_empty());
}

#[test]
fn the_first_member_that_fails_ends_the_fleet() {
    let mut token = SoftToken::new();
    token.refuse = Some("BuildMember".to_string());
    let step = Fleet::build_signers(&fleet(&["m/1", "m/2"]));
    assert!(drive(&mut token, step).is_err());
    assert_eq!(token.asked, vec!["BuildMember".to_string()]);
}

#[test]
fn a_member_loads_a_key_that_is_there() {
    let mut token = SoftToken::new();
    let made = match drive(&mut token, build_member(fleet_member(0), plain())) {
        Ok(s) => s,
        Err(e) => panic!("{e:?}"),
    };
    let mut member = fleet_member(0);
    member.key_init = KeyInit::Load;
    let loaded = match drive(&mut token, build_member(member, plain())) {
        Ok(s) => s,
        Err(e) => panic!("{e:?}"),
    };
    assert!(loaded.fingerprint().same(&made.fingerprint()));
    assert_eq!(loaded.xpub().public_key.bytes, made.xpub().public_key.bytes);
}

#[test]
fn a_patched_signer_has_the_network_of_its_kind() {
    let mut token = SoftToken::new();
    let signer = derive(&mut token, "l", 7, plain());
    let key = signer.xpub().public_key.bytes;
    assert_eq!(signer.xpub().network, NetworkKind::Main);
    let patched = NetworkPatchedSigner::new(signer, Network::Testnet);
    assert_eq!(patched.xpub().network, NetworkKind::Test);
    assert_eq!(patched.xpub().public_key.bytes, key);
    assert_eq!(patched.inner().xpub().network, NetworkKind::Main);
    assert_eq!(patched.id(), patched.inner().id());
    assert_eq!(patched.label(), Some("l"));
    assert!(patched.fingerprint().same(&patched.inner().fingerprint()));
    assert_eq!(patched.supported_networks(), vec![NetworkType::Bitcoin(Network::Testnet)]);
    assert!(drive(&mut token, patched.health_check()).unwrap().reachable);
}

#[test]
fn an_unreachable_token_is_a_backend_error() {
    let mut token = SoftToken::new();
    let signer = derive(&mut token, "l", 7, plain());
    let h = drive(&mut token, signer.health_check()).unwrap();
    assert!(h.reachable);
    assert_eq!(h.firmware_version, Some("pkcs11/core-test".to_string()));
    token.refuse = Some("TokenLabel".to_string());
    match drive(&mut token, signer.health_check()) {
        Err(SignerError::Backend(t)) => assert_eq!(t, "PKCS#11 error: refused"),
        other => panic!("unexpected result: {other:?}"),
    }
}
