//! What the library computes from plain values.
use bitcoin::secp256k1::{Message, Secp256k1, SecretKey};
use emvault_pkcs11::backend::thales::ThalesBackend;
use emvault_pkcs11::backend::utimaco::UtimacoBackend;
use emvault_pkcs11::backend::{
    fingerprint_from_attributes, parse_ec_point, xpub_from_attributes, AttributeDerivation,
    StandardDerivation, VendorIds,
};
use emvault_pkcs11::bip32::{
    ChildNumber, DerivationPath, Fingerprint, Network, NetworkKind, PublicKey,
};
use emvault_pkcs11::config::{Pin, Pkcs11Config, SlotIdentifier};
use emvault_pkcs11::derivation::{FixedKey, HsmNativeBip32, SoftwareTweakDev};
use emvault_pkcs11::ecdsa::canonical_signature;
use emvault_pkcs11::environment::{Environment, Variable};
use emvault_pkcs11::error::{HsmBackendError, Pkcs11Error, SignerError};
use emvault_pkcs11::fleet::{
    decode_hex, env_or, fkey, parse_key_init, parse_member, parse_network,
    parse_slot, req, BackendRegistry, Fleet, FleetMember, KeyInit, MemberEnv,
};
use emvault_pkcs11::key_ops::{
    der_decode_octet_string_lenient, der_encode_octet_string, priv_label, pub_label,
};
use emvault_pkcs11::policy::{policy_label, sigrate_label, MinimalHsmPolicy, SigRateCounter};
use emvault_pkcs11::psbt::{insert_sig, PartialSig, Psbt, PsbtInput, Transaction, TxIn, TxOut};
use emvault_pkcs11::token::{
    Attribute, AttributeType, MechanismType, TokenError, TokenErrorCode,
};

// ---------------------------------------------------------------------------
// Backends
// ---------------------------------------------------------------------------

#[derive(Debug)]
struct StubBackend;

impl AttributeDerivation for StubBackend {
    fn backend_name(&self) -> &'static str {
        "stub"
    }
    fn master_derive_mechanism(&self) -> MechanismType {
        MechanismType::new_vendor_defined(0x8000_0001).unwrap()
    }
    fn child_derive_mechanism(&self) -> MechanismType {
        MechanismType::new_vendor_defined(0x8000_0002).unwrap()
    }
    fn chain_code_attribute(&self) -> AttributeType {
        AttributeType::VendorDefined(0x8000_0101)
    }
    fn depth_attribute(&self) -> AttributeType {
        AttributeType::VendorDefined(0x8000_0102)
    }
    fn parent_fingerprint_attribute(&self) -> AttributeType {
        AttributeType::VendorDefined(0x8000_0103)
    }
    fn child_index_attribute(&self) -> AttributeType {
        AttributeType::VendorDefined(0x8000_0104)
    }
}

fn stub_ids() -> VendorIds {
    StandardDerivation::of(&StubBackend).ids
}

#[test]
fn stub_constants_round_trip() {
    let s = StubBackend;
    assert_eq!(AttributeDerivation::backend_name(&s), "stub");
    assert_eq!(s.master_derive_mechanism().value, 0x8000_0001);
    assert_eq!(s.child_derive_mechanism().value, 0x8000_0002);
    assert_eq!(s.chain_code_attribute(), AttributeType::VendorDefined(0x8000_0101));
    let standard = StandardDerivation::of(&s);
    assert_eq!(standard.ids.master_mechanism.value, 0x8000_0001);
    assert_eq!(standard.ids.child_index, AttributeType::VendorDefined(0x8000_0104));
}

#[test]
fn name_is_thales() {
    assert_eq!(ThalesBackend.backend_name(), "thales");
}

#[test]
fn name_is_utimaco() {
    assert_eq!(UtimacoBackend.backend_name(), "utimaco");
}

#[test]
fn vendor_mechanisms_start_at_the_vendor_range() {
    assert!(MechanismType::new_vendor_defined(0x7fff_ffff).is_none());
    assert_eq!(MechanismType::new_vendor_defined(0x8000_0000).unwrap().value, 0x8000_0000);
    assert_eq!(MechanismType::ecdsa().value, 0x1041);
}

/// The secp256k1 generator, compressed.
const GENERATOR: [u8; 33] = [
    0x02, 0x79, 0xbe, 0x66, 0x7e, 0xf9, 0xdc, 0xbb, 0xac, 0x55, 0xa0, 0x62, 0x95, 0xce, 0x87, 0x0b,
    0x07, 0x02, 0x9b, 0xfc, 0xdb, 0x2d, 0xce, 0x28, 0xd9, 0x59, 0xf2, 0x81, 0x5b, 0x16, 0xf8, 0x17,
    0x98,
];

fn uncompressed_generator() -> Vec<u8> {
    bitcoin::secp256k1::PublicKey::from_slice(&GENERATOR)
        .unwrap()
        .serialize_uncompressed()
        .to_vec()
}

#[test]
fn points_are_compressed() {
    let wrapped = der_encode_octet_string(&uncompressed_generator());
    assert_eq!(parse_ec_point(&wrapped).unwrap().bytes, GENERATOR);
    assert_eq!(parse_ec_point(&GENERATOR).unwrap().bytes, GENERATOR);
}

#[test]
fn bad_points_are_metadata_errors() {
    match parse_ec_point(&[]).unwrap_err() {
        HsmBackendError::MetadataError(t) => assert_eq!(t, "EC point: empty EC point"),
        other => panic!("unexpected variant: {other:?}"),
    }
    match parse_ec_point(&[0x02u8; 12]).unwrap_err() {
        HsmBackendError::MetadataError(t) => {
            assert_eq!(t, "invalid secp256k1 point: malformed public key")
        }
        other => panic!("unexpected variant: {other:?}"),
    }
}

fn metadata() -> Vec<Attribute> {
    vec![
        Attribute::EcPoint(der_encode_octet_string(&GENERATOR)),
        Attribute::VendorDefined(0x8000_0101, vec![7u8; 32]),
        Attribute::VendorDefined(0x8000_0102, vec![4]),
        Attribute::VendorDefined(0x8000_0103, vec![1, 2, 3, 4]),
        Attribute::VendorDefined(0x8000_0104, vec![2, 0, 0, 0x80]),
    ]
}

#[test]
fn xpub_comes_from_the_attributes() {
    let x = xpub_from_attributes(stub_ids(), &metadata()).unwrap();
    assert_eq!(x.public_key.bytes, GENERATOR);
    assert_eq!(x.chain_code.bytes, [7u8; 32]);
    assert_eq!(x.depth, 4);
    assert_eq!(x.parent_fingerprint.bytes, [1, 2, 3, 4]);
    assert_eq!(x.child_number, ChildNumber::Hardened { index: 2 });
    assert_eq!(x.network, NetworkKind::Main);
}

#[test]
fn the_last_attribute_of_a_type_counts() {
    let mut list = metadata();
    list.push(Attribute::VendorDefined(0x8000_0102, vec![9, 1]));
    list.push(Attribute::VendorDefined(0x8000_0999, vec![5]));
    assert_eq!(xpub_from_attributes(stub_ids(), &list).unwrap().depth, 9);
}

fn metadata_error(list: &Vec<Attribute>) -> String {
    match xpub_from_attributes(stub_ids(), list).unwrap_err() {
        HsmBackendError::MetadataError(t) => t,
        other => panic!("unexpected variant: {other:?}"),
    }
}

#[test]
fn missing_metadata_is_named() {
    let names = [
        "missing CKA_EC_POINT",
        "missing chain code",
        "missing depth",
        "missing parent fingerprint",
        "missing child index",
    ];
    for (i, name) in names.iter().enumerate() {
        let mut list = metadata();
        list.remove(i);
        assert_eq!(&metadata_error(&list), name);
    }
}

#[test]
fn malformed_metadata_is_named() {
    let cases: [(usize, u64, Vec<u8>, &str); 4] = [
        (1, 0x8000_0101, vec![7u8; 31], "chain code != 32 bytes"),
        (2, 0x8000_0102, vec![], "empty depth"),
        (3, 0x8000_0103, vec![1, 2, 3], "parent fingerprint != 4 bytes"),
        (4, 0x8000_0104, vec![1, 2, 3, 4, 5], "child index != 4 bytes"),
    ];
    for (i, number, value, words) in cases {
        let mut list = metadata();
        list[i] = Attribute::VendorDefined(number, value);
        assert_eq!(metadata_error(&list), words);
    }
}

#[test]
fn fingerprint_is_the_start_of_hash160() {
    let list = vec![Attribute::EcPoint(der_encode_octet_string(&uncompressed_generator()))];
    // HASH160 of the compressed generator is 751e76e8...
    assert_eq!(fingerprint_from_attributes(&list).unwrap().bytes, [0x75, 0x1e, 0x76, 0xe8]);
    assert!(fingerprint_from_attributes(&vec![]).is_err());
}

// ---------------------------------------------------------------------------
// Strategies
// ---------------------------------------------------------------------------

#[test]
fn fixed_key_name_is_stable() {
    assert_eq!(FixedKey.name(), "FixedKey");
}

#[test]
fn hsm_native_carries_mechanism() {
    let s = HsmNativeBip32::new(MechanismType::ecdsa());
    assert_eq!(s.name(), "HsmNativeBip32");
}

#[test]
fn software_tweak_name_is_stable() {
    assert_eq!(SoftwareTweakDev.name(), "SoftwareTweakDev");
}

// ---------------------------------------------------------------------------
// Signatures
// ---------------------------------------------------------------------------

/// The same signature with the other second number.
fn flipped(compact: &[u8; 64]) -> Vec<u8> {
    let s = SecretKey::from_slice(&compact[32..]).unwrap().negate();
    let mut out = compact[..32].to_vec();
    out.extend_from_slice(&s.secret_bytes());
    out
}

#[test]
fn normalized_signature_verifies() {
    let secp = Secp256k1::new();
    let sk = SecretKey::from_slice(&[2u8; 32]).unwrap();
    let pk = sk.public_key(&secp);
    let msg = Message::from_digest([3u8; 32]);
    let mut sig = secp.sign_ecdsa(&msg, &sk);
    sig.normalize_s();
    secp.verify_ecdsa(&msg, &sig, &pk).unwrap();

    let low = sig.serialize_compact();
    let high = flipped(&low);
    assert_ne!(high, low.to_vec());
    let back = canonical_signature(&high).unwrap();
    assert_eq!(back, low);
    assert_eq!(canonical_signature(&low.to_vec()).unwrap(), low);
    let parsed = bitcoin::secp256k1::ecdsa::Signature::from_compact(&back).unwrap();
    secp.verify_ecdsa(&msg, &parsed, &pk).unwrap();
}

#[test]
fn signatures_of_a_wrong_length_are_refused() {
    let e = canonical_signature(&vec![1u8; 63]).unwrap_err();
    assert_eq!(
        e.to_string(),
        "backend error: PKCS#11 ECDSA returned 63 bytes, expected 64 (r || s)"
    );
}

#[test]
fn numbers_beyond_the_group_order_are_refused() {
    let e = canonical_signature(&vec![0xffu8; 64]).unwrap_err();
    assert_eq!(e.to_string(), "secp256k1 error: malformed signature");
}

// ---------------------------------------------------------------------------
// Keys and labels
// ---------------------------------------------------------------------------

#[test]
fn der_encode_then_decode_round_trips() {
    let raw = [0x02u8; 33].to_vec();
    let encoded = der_encode_octet_string(&raw);
    let decoded = der_decode_octet_string_lenient(&encoded).unwrap();
    assert_eq!(raw, decoded);
}

#[test]
fn der_decode_accepts_raw_bytes() {
    let raw = vec![0x02u8; 33];
    let decoded = der_decode_octet_string_lenient(&raw).unwrap();
    assert_eq!(raw, decoded);
}

#[test]
fn a_bare_uncompressed_point_is_taken() {
    let secp = bitcoin::secp256k1::Secp256k1::new();
    let one = bitcoin::secp256k1::SecretKey::from_slice(&[
        0, 0, 0, 0, 0, 0, 0, 0, 0, 0, 0, 0, 0, 0, 0, 0, 0, 0, 0, 0, 0, 0, 0, 0, 0, 0, 0, 0, 0, 0, 0, 1,
    ])
    .unwrap();
    let generator = one.public_key(&secp).serialize_uncompressed();
    assert_eq!(generator[..2], [0x04, 0x79]);
    assert_eq!(der_decode_octet_string_lenient(&generator).unwrap(), generator.to_vec());
    let wrapped = der_encode_octet_string(&generator);
    assert_eq!(der_decode_octet_string_lenient(&wrapped).unwrap(), generator.to_vec());
    // No length that DER writes.
    let mut odd = [0x04u8; 65];
    odd[1] = 0xff;
    assert_eq!(der_decode_octet_string_lenient(&odd).unwrap(), odd.to_vec());
    // What is an octet string and nothing else is taken for one.
    let inner = vec![7u8; 63];
    let outer = der_encode_octet_string(&inner);
    assert_eq!(outer.len(), 65);
    assert_eq!(der_decode_octet_string_lenient(&outer).unwrap(), inner);
}

#[test]
fn bare_points_that_read_as_octet_strings_are_points() {
    let secp = bitcoin::secp256k1::Secp256k1::new();
    let mut found: usize = 0;
    for n in 1u32..4000 {
        let mut bytes = [0u8; 32];
        bytes[28..].copy_from_slice(&n.to_be_bytes());
        let key = bitcoin::secp256k1::SecretKey::from_slice(&bytes).unwrap().public_key(&secp);
        let bare = key.serialize_uncompressed();
        let read = parse_ec_point(&bare).unwrap();
        assert_eq!(read.bytes, key.serialize());
        if bare[1] == 0x3f {
            found += 1;
            assert_eq!(der_decode_octet_string_lenient(&bare).unwrap(), bare[2..].to_vec());
        }
    }
    assert!(found > 0);
    // An octet string with no point in it is refused for that.
    assert_eq!(
        parse_ec_point(&der_encode_octet_string(&[7u8; 63])).unwrap_err().to_string(),
        "BIP-32 metadata error: invalid secp256k1 point: malformed public key"
    );
}

#[test]
fn label_helpers_use_namespace() {
    assert_eq!(priv_label("foo"), "emvault/v1/foo/priv");
    assert_eq!(pub_label("foo"), "emvault/v1/foo/pub");
}

#[test]
fn store_labels_use_namespace() {
    assert_eq!(policy_label("foo"), "emvault/v1/foo/policy");
    assert_eq!(sigrate_label("foo"), "emvault/v1/foo/sigrate");
}

#[test]
fn octet_string_lengths() {
    assert_eq!(der_encode_octet_string(&[]), vec![0x04, 0x00]);
    assert_eq!(der_encode_octet_string(&[9u8; 0x7f])[..2], [0x04, 0x7f]);
    assert_eq!(der_encode_octet_string(&[9u8; 0x80])[..3], [0x04, 0x81, 0x80]);
    assert_eq!(der_encode_octet_string(&[9u8; 0xff])[..3], [0x04, 0x81, 0xff]);
    assert_eq!(der_encode_octet_string(&[9u8; 0x100])[..4], [0x04, 0x82, 0x01, 0x00]);
    for n in [0usize, 1, 0x7f, 0x80, 0xff, 0x100, 0x1234] {
        let raw = vec![9u8; n];
        assert_eq!(der_decode_octet_string_lenient(&der_encode_octet_string(&raw)).unwrap(), raw);
    }
}

#[test]
fn bad_octet_strings_are_refused() {
    assert_eq!(der_decode_octet_string_lenient(&[]).unwrap_err(), "empty EC point");
    assert_eq!(
        der_decode_octet_string_lenient(&[0x04, 0x80, 0x00]).unwrap_err(),
        "malformed DER length on EC point"
    );
    assert_eq!(
        der_decode_octet_string_lenient(&[0x04, 0x81]).unwrap_err(),
        "malformed DER length on EC point"
    );
    assert_eq!(
        der_decode_octet_string_lenient(&[0x04, 0x05, 1, 2]).unwrap_err(),
        "DER OCTET STRING truncated on EC point"
    );
    assert_eq!(der_decode_octet_string_lenient(&[0x04]).unwrap(), vec![0x04]);
    // What is behind the string is left out.
    assert_eq!(der_decode_octet_string_lenient(&[0x04, 0x01, 7, 8]).unwrap(), vec![7]);
}

// ---------------------------------------------------------------------------
// Paths
// ---------------------------------------------------------------------------

fn path(text: &str) -> DerivationPath {
    DerivationPath::parse(text).unwrap()
}

#[test]
fn paths_are_read_and_written() {
    let p = path("m/48'/1'/0h/2");
    assert_eq!(
        p.segments,
        vec![
            ChildNumber::Hardened { index: 48 },
            ChildNumber::Hardened { index: 1 },
            ChildNumber::Hardened { index: 0 },
            ChildNumber::Normal { index: 2 },
        ]
    );
    assert_eq!(p.to_string(), "48'/1'/0'/2");
    assert!(path("m").segments.is_empty());
    assert!(path("").segments.is_empty());
    assert!(path("48'/1'").same(&path("m/48h/1h")));
    assert!(!path("48'/1'").same(&path("48'/1")));
}

#[test]
fn bad_paths_are_refused_in_the_words_of_bitcoin() {
    for text in ["m/x", "m/2147483648", "m//1", "0/", "n/0"] {
        let words = match text.parse::<bitcoin::bip32::DerivationPath>() {
            Ok(_) => panic!("{text} is a path"),
            Err(e) => e.to_string(),
        };
        assert_eq!(DerivationPath::parse(text).unwrap_err(), words);
    }
    assert_eq!(DerivationPath::parse("m/1/x").unwrap_err(), "invalid child number format");
    assert_eq!(DerivationPath::parse("4294967296").unwrap_err(), "invalid child number format");
    assert_eq!(
        DerivationPath::parse("m/2147483648'/x").unwrap_err(),
        "child number 2147483648 is invalid (not within [0, 2^31 - 1])"
    );
}

#[test]
fn child_numbers_are_words() {
    let hard = ChildNumber::Hardened { index: 5 };
    assert_eq!(hard.to_word(), 0x8000_0005);
    assert_eq!(ChildNumber::from_word(0x8000_0005), hard);
    assert_eq!(ChildNumber::from_word(7), ChildNumber::Normal { index: 7 });
    assert_eq!(hard.to_string(), "5'");
    assert_eq!(ChildNumber::Normal { index: 7 }.to_string(), "7");
}

#[test]
fn networks_have_names_and_kinds() {
    assert_eq!(Network::Bitcoin.kind(), NetworkKind::Main);
    for (network, name) in [
        (Network::Testnet, "testnet"),
        (Network::Testnet4, "testnet4"),
        (Network::Signet, "signet"),
        (Network::Regtest, "regtest"),
    ] {
        assert_eq!(network.kind(), NetworkKind::Test);
        assert_eq!(network.name(), name);
    }
    assert_eq!(Network::Bitcoin.name(), "bitcoin");
}

// ---------------------------------------------------------------------------
// Configuration
// ---------------------------------------------------------------------------

fn environment(list: &[(&str, &str)]) -> Environment {
    Environment {
        variables: list
            .iter()
            .map(|(name, value)| Variable { name: name.to_string(), value: value.to_string() })
            .collect(),
    }
}

#[test]
fn slot_identifier_display() {
    assert_eq!(SlotIdentifier::label("foo").to_string(), "label=foo");
    assert_eq!(SlotIdentifier::slot_id(7).to_string(), "slot_id=7");
}

#[test]
fn library_path_from_env_reads_pkcs11_lib() {
    let e = Pkcs11Config::<()>::library_path_from_env(&environment(&[])).unwrap_err();
    assert_eq!(
        e.to_string(),
        "environment variable PKCS11_LIB missing or invalid: neither PKCS11_LIB nor SOFTHSM2_LIB is set"
    );
    let one = environment(&[("SOFTHSM2_LIB", "/tmp/softhsm.so")]);
    let path = Pkcs11Config::<()>::library_path_from_env(&one).unwrap();
    assert_eq!(path, "/tmp/softhsm.so");
    let both = environment(&[("SOFTHSM2_LIB", "/tmp/softhsm.so"), ("PKCS11_LIB", "/tmp/pkcs11.so")]);
    let path = Pkcs11Config::<()>::library_path_from_env(&both).unwrap();
    assert_eq!(path, "/tmp/pkcs11.so");
}

#[test]
fn a_config_holds_what_it_is_given() {
    let c = Pkcs11Config::new(
        "/lib.so".to_string(),
        SlotIdentifier::slot_id(3),
        Pin { text: "1234".to_string() },
        path("m/1"),
        ThalesBackend,
    );
    assert_eq!(c.library_path, "/lib.so");
    assert_eq!(c.slot.to_string(), "slot_id=3");
    assert_eq!(c.pin.text, "1234");
    assert_eq!(c.derivation_path.to_string(), "1");
    assert_eq!(c.backend.backend_name(), "thales");
}

#[test]
fn an_empty_variable_is_set_but_not_filled() {
    let env = environment(&[("A", ""), ("B", "b")]);
    assert_eq!(env.var("A"), Some(String::new()));
    assert_eq!(env.opt("A"), None);
    assert_eq!(env.opt("B"), Some("b".to_string()));
    assert_eq!(env.var("C"), None);
}

// ---------------------------------------------------------------------------
// Errors
// ---------------------------------------------------------------------------

fn token_error() -> TokenError {
    TokenError { code: TokenErrorCode::Other, message: "device gone".to_string() }
}

#[test]
fn errors_are_told_in_words() {
    let cases: Vec<(Pkcs11Error, &str)> = vec![
        (
            Pkcs11Error::LibraryLoad { path: "/x.so".to_string(), source: token_error() },
            "failed to load PKCS#11 library at /x.so: device gone",
        ),
        (Pkcs11Error::Initialize(token_error()), "PKCS#11 initialize failed: device gone"),
        (Pkcs11Error::SlotNotFound("s".to_string()), "PKCS#11 slot not found: s"),
        (Pkcs11Error::NoToken("s".to_string()), "PKCS#11 slot s has no initialized token"),
        (Pkcs11Error::LoginFailed(token_error()), "PKCS#11 login failed: device gone"),
        (Pkcs11Error::Pkcs11(token_error()), "PKCS#11 error: device gone"),
        (
            Pkcs11Error::MechanismUnsupported("CKM_ECDSA"),
            "PKCS#11 mechanism CKM_ECDSA not supported by this token",
        ),
        (
            Pkcs11Error::DerivationUnsupported { strategy: "S", reason: "r".to_string() },
            "BIP-32 derivation unsupported by S: r",
        ),
        (Pkcs11Error::ObjectNotFound("o".to_string()), "PKCS#11 object not found: o"),
        (
            Pkcs11Error::Ambiguous { query: "q".to_string(), count: 12 },
            "PKCS#11 found 12 objects matching q (expected exactly 1)",
        ),
        (Pkcs11Error::InvalidConfig("c".to_string()), "invalid PKCS#11 configuration: c"),
        (Pkcs11Error::PolicyViolation("p".to_string()), "HSM policy violation: p"),
        (Pkcs11Error::Secp256k1("e".to_string()), "secp256k1 error: e"),
        (Pkcs11Error::Bitcoin("e".to_string()), "bitcoin error: e"),
        (Pkcs11Error::Serialization("e".to_string()), "serialization error: e"),
        (
            Pkcs11Error::Env { var: "V", reason: "r".to_string() },
            "environment variable V missing or invalid: r",
        ),
        (Pkcs11Error::Backend("b".to_string()), "backend error: b"),
        (
            Pkcs11Error::HsmBackend(HsmBackendError::KeyNotFound { label: "l".to_string() }),
            "key not found: l",
        ),
    ];
    for (e, words) in cases {
        assert_eq!(e.to_string(), words);
    }
    assert_eq!(HsmBackendError::Pkcs11(token_error()).to_string(), "PKCS#11 error: device gone");
    assert_eq!(
        HsmBackendError::Derivation("d".to_string()).to_string(),
        "BIP-32 derivation error: d"
    );
    assert_eq!(
        HsmBackendError::MetadataError("m".to_string()).to_string(),
        "BIP-32 metadata error: m"
    );
}

#[test]
fn pkcs11_error_policy_violation_maps_to_signer_policy_violation() {
    let e = Pkcs11Error::PolicyViolation("rule X failed".into());
    let s: SignerError = e.into();
    match s {
        SignerError::PolicyViolation { id, rule } => {
            assert_eq!(rule, "rule X failed");
            assert_eq!(id, "pkcs11");
        }
        other => panic!("unexpected variant: {other:?}"),
    }
}

#[test]
fn hsm_backend_error_derivation_maps_to_signing_failed() {
    let e = Pkcs11Error::HsmBackend(HsmBackendError::Derivation("seed length wrong".into()));
    let s: SignerError = e.into();
    match s {
        SignerError::SigningFailed { reason, .. } => {
            assert!(reason.contains("seed length wrong"), "got: {reason}");
        }
        other => panic!("unexpected variant: {other:?}"),
    }
}

#[test]
fn hsm_backend_error_key_not_found_maps_to_backend() {
    let e = Pkcs11Error::HsmBackend(HsmBackendError::KeyNotFound {
        label: "fed-1".into(),
    });
    let s: SignerError = e.into();
    match s {
        SignerError::Backend(msg) => {
            assert!(msg.contains("fed-1"), "got: {msg}");
        }
        other => panic!("unexpected variant: {other:?}"),
    }
}

#[test]
fn pkcs11_error_other_maps_to_backend() {
    let e = Pkcs11Error::SlotNotFound("label=foo".into());
    let s: SignerError = e.into();
    assert!(matches!(s, SignerError::Backend(_)));
}

#[test]
fn unsupported_derivation_maps_to_signing_failed() {
    let e = Pkcs11Error::DerivationUnsupported { strategy: "S", reason: "r".to_string() };
    match SignerError::from(e) {
        SignerError::SigningFailed { id, reason } => {
            assert_eq!(reason, "S: r");
            assert_eq!(id, "pkcs11");
        }
        other => panic!("unexpected variant: {other:?}"),
    }
}

// ---------------------------------------------------------------------------
// Policies
// ---------------------------------------------------------------------------

const ADDRESS: &str = "tb1qw508d6qejxtdg4y5r3zarvary0c5xw7kxpjzsx";

fn dummy_script() -> Vec<u8> {
    let a: bitcoin::Address<bitcoin::address::NetworkUnchecked> = ADDRESS.parse().unwrap();
    a.assume_checked().script_pubkey().to_bytes()
}

fn psbt_with_outputs(output: Vec<TxOut>) -> Psbt {
    Psbt {
        unsigned_tx: Transaction {
            version: 2,
            lock_time: 0,
            input: vec![TxIn { txid: [0u8; 32], vout: 0xffff_ffff, sequence: 0xffff_fffd }],
            output,
        },
        inputs: vec![PsbtInput {
            bip32_derivation: vec![],
            sighash_type: None,
            witness_script: None,
            witness_utxo: None,
            partial_sigs: vec![],
            tap_key_origins: vec![],
            tap_script_sigs: vec![],
        }],
    }
}

#[test]
fn permissive_passes_anything() {
    let policy = MinimalHsmPolicy::permissive();
    let psbt = psbt_with_outputs(vec![TxOut { value: 1_000, script_pubkey: dummy_script() }]);
    assert!(policy.check_against_psbt(&psbt, Network::Testnet).is_ok());
}

#[test]
fn per_tx_limit_rejects_overspend() {
    let policy = MinimalHsmPolicy {
        per_transaction_limit: Some(500),
        ..Default::default()
    };
    let psbt = psbt_with_outputs(vec![TxOut { value: 1_000, script_pubkey: dummy_script() }]);
    let err = policy.check_against_psbt(&psbt, Network::Testnet).unwrap_err();
    assert_eq!(
        err.to_string(),
        "HSM policy violation: PSBT output total 0.00001000 BTC exceeds per-transaction limit 0.00000500 BTC"
    );
    assert!(matches!(err, Pkcs11Error::PolicyViolation(_)));
}

#[test]
fn the_limit_itself_may_be_spent() {
    let policy = MinimalHsmPolicy {
        per_transaction_limit: Some(500),
        ..Default::default()
    };
    let outs = vec![
        TxOut { value: 200, script_pubkey: dummy_script() },
        TxOut { value: 300, script_pubkey: vec![0x51] },
    ];
    assert!(policy.check_against_psbt(&psbt_with_outputs(outs), Network::Testnet).is_ok());
}

#[test]
fn whole_bitcoins_are_told_without_decimals() {
    let policy = MinimalHsmPolicy {
        per_transaction_limit: Some(100_000_000),
        ..Default::default()
    };
    let psbt = psbt_with_outputs(vec![TxOut { value: 250_000_001, script_pubkey: vec![] }]);
    let err = policy.check_against_psbt(&psbt, Network::Testnet).unwrap_err();
    assert_eq!(
        err.to_string(),
        "HSM policy violation: PSBT output total 2.50000001 BTC exceeds per-transaction limit 1 BTC"
    );
}

#[test]
fn whitelist_rejects_unknown_destination() {
    let policy = MinimalHsmPolicy {
        destination_whitelist: Some(vec![ADDRESS.to_string()]),
        ..Default::default()
    };
    let mut other_script = vec![0x00, 0x14];
    other_script.extend_from_slice(&[9u8; 20]);
    let words = format!(
        "HSM policy violation: output script {:?} not in destination whitelist",
        bitcoin::Script::from_bytes(&other_script)
    );
    let psbt = psbt_with_outputs(vec![TxOut { value: 100, script_pubkey: other_script }]);
    let err = policy.check_against_psbt(&psbt, Network::Testnet).unwrap_err();
    assert_eq!(err.to_string(), words);
    assert!(matches!(err, Pkcs11Error::PolicyViolation(_)));
}

#[test]
fn whitelist_accepts_known_destination() {
    let policy = MinimalHsmPolicy {
        destination_whitelist: Some(vec![ADDRESS.to_string()]),
        ..Default::default()
    };
    let psbt = psbt_with_outputs(vec![TxOut { value: 100, script_pubkey: dummy_script() }]);
    assert!(policy.check_against_psbt(&psbt, Network::Testnet).is_ok());
}

#[test]
fn an_empty_whitelist_rejects_every_output() {
    let policy = MinimalHsmPolicy {
        destination_whitelist: Some(vec![]),
        ..Default::default()
    };
    let psbt = psbt_with_outputs(vec![TxOut { value: 100, script_pubkey: dummy_script() }]);
    assert!(policy.check_against_psbt(&psbt, Network::Testnet).is_err());
    assert!(policy.check_against_psbt(&psbt_with_outputs(vec![]), Network::Testnet).is_ok());
}

#[test]
fn whitelisted_addresses_are_of_the_network() {
    let policy = MinimalHsmPolicy {
        destination_whitelist: Some(vec![ADDRESS.to_string()]),
        ..Default::default()
    };
    let psbt = psbt_with_outputs(vec![]);
    let unchecked: bitcoin::Address<bitcoin::address::NetworkUnchecked> = ADDRESS.parse().unwrap();
    let words = unchecked.require_network(bitcoin::Network::Bitcoin).unwrap_err().to_string();
    match policy.check_against_psbt(&psbt, Network::Bitcoin).unwrap_err() {
        Pkcs11Error::Bitcoin(t) => {
            assert_eq!(t, format!("whitelist address not on network bitcoin: {words}"))
        }
        other => panic!("unexpected variant: {other:?}"),
    }
}

#[test]
fn a_total_beyond_all_amounts_exceeds_the_limit() {
    let out = |value: u64| TxOut { value, script_pubkey: vec![] };
    let psbt = psbt_with_outputs(vec![out(u64::MAX), out(1)]);
    let policy = MinimalHsmPolicy { per_transaction_limit: Some(500), ..Default::default() };
    match policy.check_against_psbt(&psbt, Network::Testnet).unwrap_err() {
        Pkcs11Error::PolicyViolation(t) => assert_eq!(
            t,
            "PSBT output total above 184467440737.09551615 BTC exceeds per-transaction limit 0.00000500 BTC"
        ),
        other => panic!("unexpected variant: {other:?}"),
    }
    let wide = MinimalHsmPolicy { per_transaction_limit: Some(u64::MAX), ..Default::default() };
    assert!(wide.check_against_psbt(&psbt, Network::Testnet).is_err());
    let largest = psbt_with_outputs(vec![out(u64::MAX - 1), out(1)]);
    assert!(wide.check_against_psbt(&largest, Network::Testnet).is_ok());
    assert!(MinimalHsmPolicy::permissive().check_against_psbt(&psbt, Network::Testnet).is_ok());
}

#[test]
fn sigrate_counter_prunes_old_entries() {
    let mut c = SigRateCounter::default();
    c.timestamps.push(100);
    c.timestamps.push(200);
    c.timestamps.push(5_000);
    let now: u64 = 5_000;
    let count = c.prune_and_count(now);
    assert_eq!(count, 1);
    assert_eq!(c.timestamps, vec![5_000]);
}

#[test]
fn an_hour_old_entry_still_counts() {
    let mut c = SigRateCounter::new();
    c.record(1_399);
    c.record(1_400);
    assert_eq!(c.prune_and_count(5_000), 1);
    assert_eq!(c.timestamps, vec![1_400]);
    // Before the first hour is over everything counts.
    let mut early = SigRateCounter::new();
    early.record(0);
    assert_eq!(early.prune_and_count(10), 1);
}

#[test]
fn pruning_in_steps_is_pruning_at_once() {
    let times = vec![100u64, 3_000, 4_000, 7_000];
    let mut steps = SigRateCounter { timestamps: times.clone() };
    steps.prune_and_count(5_000);
    steps.prune_and_count(7_700);
    let mut once = SigRateCounter { timestamps: times };
    once.prune_and_count(7_700);
    assert_eq!(steps, once);
    assert_eq!(once.timestamps, vec![7_000]);
}

#[test]
fn a_key_has_one_signature() {
    let sig = |key: u8, byte: u8| PartialSig {
        key: vec![key],
        signature: vec![byte],
        sighash_type: 1,
    };
    let mut list = vec![sig(1, 1), sig(2, 2)];
    insert_sig(&mut list, sig(2, 3));
    insert_sig(&mut list, sig(5, 4));
    let got: Vec<(u8, u8)> = list.iter().map(|s| (s.key[0], s.signature[0])).collect();
    assert_eq!(got, vec![(1, 1), (2, 3), (5, 4)]);
}

// ---------------------------------------------------------------------------
// Fleets
// ---------------------------------------------------------------------------

fn member(vendor: &str, slot: &str, derivation: &str) -> FleetMember<()> {
    FleetMember {
        vendor: vendor.into(),
        label: "l".into(),
        library_path: "/lib.so".into(),
        slot: SlotIdentifier::label(slot),
        pin: Pin { text: "pin".into() },
        derivation_path: path(derivation),
        network: Network::Testnet,
        make_backend: (),
        key_init: KeyInit::DeriveFromSeed(Vec::new()),
    }
}

#[test]
fn distinct_members_validate() {
    let fleet = vec![
        member("securosys", "P1", "m/48'/1'/0'/0'"),
        member("dev", "core-test-1", "m/48'/1'/0'/0'"),
        member("securosys", "P1", "m/48'/1'/0'/1'"),
    ];
    assert!(Fleet::validate(&fleet).is_ok());
}

#[test]
fn same_vendor_slot_path_is_degenerate() {
    let fleet = vec![
        member("securosys", "P1", "m/48'/1'/0'/0'"),
        member("securosys", "P1", "m/48'/1'/0'/0'"),
    ];
    assert!(Fleet::validate(&fleet).is_err());
}

#[test]
fn the_first_two_of_one_key_are_named() {
    let fleet = vec![
        member("a", "P1", "m/1"),
        member("b", "P1", "m/1"),
        member("a", "P2", "m/1"),
        member("b", "P1", "m/1"),
        member("a", "P2", "m/1"),
    ];
    assert_eq!(
        Fleet::validate(&fleet).unwrap_err().to_string(),
        "invalid PKCS#11 configuration: degenerate fleet: cosigners 1 and 3 resolve to the same key"
    );
}

#[test]
fn a_separator_in_a_name_is_no_collision() {
    let mut one = member("a|b", "P1", "m/1");
    one.library_path = "c".to_string();
    let mut two = member("a", "P1", "m/1");
    two.library_path = "b|c".to_string();
    assert!(Fleet::validate(&[one, two]).is_ok());
}

#[test]
fn parse_key_init_variants() {
    assert!(matches!(
        parse_key_init("shim", 0).unwrap(),
        KeyInit::DeriveFromSeed(v) if v.is_empty()
    ));
    assert!(matches!(parse_key_init("load", 0).unwrap(), KeyInit::Load));
    assert!(matches!(
        parse_key_init("seed:00ff", 0).unwrap(),
        KeyInit::DeriveFromSeed(v) if v == vec![0x00, 0xff]
    ));
    assert!(parse_key_init("nonsense", 0).is_err());
}

#[test]
fn key_init_is_trimmed_and_lenient() {
    assert!(matches!(parse_key_init("  LOAD ", 0).unwrap(), KeyInit::Load));
    assert!(matches!(
        parse_key_init(" ", 0).unwrap(),
        KeyInit::DeriveFromSeed(v) if v.is_empty()
    ));
    assert_eq!(
        parse_key_init("nonsense", 3).err().unwrap().to_string(),
        "invalid PKCS#11 configuration: EMVAULT_FLEET_3_KEY: expected 'shim', 'load', or 'seed:<hex>'"
    );
    assert_eq!(
        parse_key_init("seed:abc", 2).err().unwrap().to_string(),
        "invalid PKCS#11 configuration: EMVAULT_FLEET_2_KEY seed hex: odd-length hex"
    );
}

#[test]
fn hex_is_digits_and_nothing_else() {
    assert_eq!(decode_hex(" 00Ff10 ").unwrap(), vec![0x00, 0xff, 0x10]);
    assert_eq!(decode_hex("").unwrap(), Vec::<u8>::new());
    assert_eq!(decode_hex("abc").unwrap_err(), "odd-length hex");
    let words = u8::from_str_radix("zz", 16).unwrap_err().to_string();
    for bad in ["00zz", "+f", "-f", "f+", "0x", "a g0", "\u{e9}00", "a\u{e9}b"] {
        assert_eq!(decode_hex(bad).unwrap_err(), words, "{bad}");
    }
}

#[test]
fn a_seed_that_is_no_hex_is_a_malformed_field() {
    for bad in ["seed:+f", "seed:a\u{e9}b", "seed:\u{e9}"] {
        assert_eq!(
            parse_key_init(bad, 4).err().unwrap().to_string(),
            "invalid PKCS#11 configuration: EMVAULT_FLEET_4_KEY seed hex: invalid digit found in string"
        );
    }
}

#[test]
fn networks_are_read() {
    assert_eq!(parse_network(" MainNet ").unwrap(), Network::Bitcoin);
    assert_eq!(parse_network("bitcoin").unwrap(), Network::Bitcoin);
    assert_eq!(parse_network("testnet").unwrap(), Network::Testnet);
    assert_eq!(parse_network("Signet").unwrap(), Network::Signet);
    assert_eq!(parse_network("regtest").unwrap(), Network::Regtest);
    assert_eq!(
        parse_network(" Moon ").unwrap_err().to_string(),
        "invalid PKCS#11 configuration: unknown network 'moon' (bitcoin|testnet|signet|regtest)"
    );
}

#[test]
fn environment_helpers() {
    let env = environment(&[("EMVAULT_FLEET_4_PIN", "12"), ("E", "")]);
    assert_eq!(fkey(12, "LIB"), "EMVAULT_FLEET_12_LIB");
    assert_eq!(env_or(&env, "E", "d"), "d");
    assert_eq!(env_or(&env, "EMVAULT_FLEET_4_PIN", "d"), "12");
    assert_eq!(req(&env, 4, "PIN").unwrap(), "12");
    assert_eq!(
        req(&env, 5, "PIN").unwrap_err().to_string(),
        "invalid PKCS#11 configuration: missing EMVAULT_FLEET_5_PIN"
    );
}

#[test]
fn slots_are_by_label_or_number() {
    let env = environment(&[
        ("EMVAULT_FLEET_0_SLOT", "core"),
        ("EMVAULT_FLEET_0_SLOT_ID", "9"),
        ("EMVAULT_FLEET_1_SLOT_ID", "9"),
        ("EMVAULT_FLEET_2_SLOT_ID", "nine"),
    ]);
    assert_eq!(parse_slot(&env, 0).unwrap().to_string(), "label=core");
    assert_eq!(parse_slot(&env, 1).unwrap().to_string(), "slot_id=9");
    let words = "nine".parse::<u64>().unwrap_err().to_string();
    assert_eq!(
        parse_slot(&env, 2).unwrap_err().to_string(),
        format!("invalid PKCS#11 configuration: EMVAULT_FLEET_2_SLOT_ID: {words}")
    );
    assert_eq!(
        parse_slot(&env, 3).unwrap_err().to_string(),
        "invalid PKCS#11 configuration: EMVAULT_FLEET_3_SLOT: need _SLOT (label) or _SLOT_ID (numeric)"
    );
}

fn member_variables<'a>() -> Vec<(&'a str, &'a str)> {
    vec![
        ("EMVAULT_FLEET_NETWORK", "regtest"),
        ("EMVAULT_FLEET_0_VENDOR", "dev"),
        ("EMVAULT_FLEET_0_LABEL", "fed"),
        ("EMVAULT_FLEET_0_LIB", "/lib.so"),
        ("EMVAULT_FLEET_0_SLOT_ID", "7"),
        ("EMVAULT_FLEET_0_PIN", "0000"),
        ("EMVAULT_FLEET_0_PATH", "m/48'/1'"),
        ("EMVAULT_FLEET_0_KEY", "seed:0102"),
    ]
}

#[test]
fn a_member_is_read() {
    let env = environment(&member_variables());
    let m = parse_member(&env, Network::Signet, 0, "dev".to_string()).unwrap();
    assert_eq!(m.vendor, "dev");
    assert_eq!(m.label, "fed");
    assert_eq!(m.library_path, "/lib.so");
    assert_eq!(m.slot.to_string(), "slot_id=7");
    assert_eq!(m.pin.text, "0000");
    assert_eq!(m.derivation_path.to_string(), "48'/1'");
    assert_eq!(m.network, Network::Signet);
    assert!(matches!(m.key_init, KeyInit::DeriveFromSeed(v) if v == vec![1, 2]));
}

type Registrar = fn(&MemberEnv) -> Result<String, Pkcs11Error>;

fn dev_registrar(m: &MemberEnv) -> Result<String, Pkcs11Error> {
    Ok(format!("backend of {}", m.label))
}

fn refusing_registrar(_m: &MemberEnv) -> Result<String, Pkcs11Error> {
    Err(Pkcs11Error::Backend("no licence".to_string()))
}

fn registry() -> BackendRegistry<Registrar> {
    let mut r: BackendRegistry<Registrar> = BackendRegistry::new();
    r.register("dev", dev_registrar).register("closed", refusing_registrar);
    r
}

#[test]
fn a_fleet_is_read_up_to_the_first_gap() {
    let mut list = member_variables();
    list.extend_from_slice(&[
        ("EMVAULT_FLEET_1_VENDOR", "dev"),
        ("EMVAULT_FLEET_1_LABEL", "two"),
        ("EMVAULT_FLEET_1_LIB", "/lib.so"),
        ("EMVAULT_FLEET_1_SLOT", "s"),
        ("EMVAULT_FLEET_1_PIN", "1"),
        ("EMVAULT_FLEET_1_PATH", "m"),
        ("EMVAULT_FLEET_3_VENDOR", "unknown"),
    ]);
    let fleet = Fleet::from_env(&registry(), &environment(&list)).unwrap();
    assert_eq!(fleet.len(), 2);
    assert_eq!(fleet[0].make_backend, "backend of fed");
    assert_eq!(fleet[1].make_backend, "backend of two");
    assert_eq!(fleet[0].network, Network::Regtest);
    assert!(matches!(&fleet[1].key_init, KeyInit::DeriveFromSeed(v) if v.is_empty()));
    assert!(Fleet::validate(&fleet).is_ok());
}

fn fleet_error(list: &[(&str, &str)]) -> String {
    match Fleet::from_env(&registry(), &environment(list)) {
        Ok(_) => panic!("the fleet was read"),
        Err(e) => e.to_string(),
    }
}

#[test]
fn what_is_wrong_with_a_fleet_is_told() {
    assert_eq!(
        fleet_error(&[]),
        "invalid PKCS#11 configuration: no EMVAULT_FLEET_0_VENDOR found"
    );
    assert_eq!(
        fleet_error(&[("EMVAULT_FLEET_NETWORK", "x")]),
        "invalid PKCS#11 configuration: unknown network 'x' (bitcoin|testnet|signet|regtest)"
    );
    for (i, field) in [(2usize, "LABEL"), (3, "LIB"), (5, "PIN"), (6, "PATH")] {
        let mut list = member_variables();
        list.remove(i);
        assert_eq!(
            fleet_error(&list),
            format!("invalid PKCS#11 configuration: missing EMVAULT_FLEET_0_{field}")
        );
    }
    let mut list = member_variables();
    list[6].1 = "m/x";
    let words = "m/x".parse::<bitcoin::bip32::DerivationPath>().unwrap_err().to_string();
    assert_eq!(
        fleet_error(&list),
        format!("invalid PKCS#11 configuration: EMVAULT_FLEET_0_PATH: {words}")
    );
    let mut list = member_variables();
    list[1].1 = "other";
    assert_eq!(
        fleet_error(&list),
        "invalid PKCS#11 configuration: no backend registered for vendor 'other'"
    );
    let mut list = member_variables();
    list[1].1 = "closed";
    assert_eq!(fleet_error(&list), "backend error: no licence");
}

#[test]
fn a_registrar_replaces_one_of_its_vendor() {
    let mut r = registry();
    r.register("dev", refusing_registrar);
    assert!(Fleet::from_env(&r, &environment(&member_variables())).is_err());
}

#[test]
fn fingerprints_are_compared_by_bytes() {
    let a = Fingerprint { bytes: [1, 2, 3, 4] };
    assert!(a.same(&Fingerprint { bytes: [1, 2, 3, 4] }));
    assert!(!a.same(&Fingerprint { bytes: [1, 2, 3, 5] }));
    assert_eq!(PublicKey { bytes: GENERATOR }.bytes[0], 2);
}
