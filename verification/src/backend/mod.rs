//! BIP-32 derivation inside the HSM.
//!
//! Vendors give their own numbers to the mechanisms that derive master and
//! child keys, and to the attributes that carry a key's BIP-32 metadata. A
//! vendor that follows the common convention is an [`AttributeDerivation`]: it
//! only names its numbers, and [`StandardDerivation`] does the rest. The
//! convention is `C_DeriveKey` with one mechanism per level, whose parameter
//! for a child is its index word in four little-endian bytes, and metadata
//! that is read as vendor attributes.
use crate::bip32::{
    ChainCode, ChildNumber, DerivationPath, Fingerprint, NetworkKind, PublicKey, Xpub, XpubView,
};
use crate::error::{HsmBackendError, HsmBackendErrorView};
use crate::key_ops;
use crate::outside;
use crate::program;
use crate::program::{
    Machine, MasterKeyHandle, MasterKeyView, Operation, Prog, Reply, ReplyView, Request,
    RequestView, Step,
};
use crate::text;
use crate::token;
use crate::token::{
    Attribute, AttributeType, AttributeView, KeyType, MechanismType, ObjectClass, ObjectHandle,
    TokenErrorView,
};
use vstd::prelude::*;
use vstd::string::*;

pub mod thales;
pub mod utimaco;

verus! {

// ---------------------------------------------------------------------------
// What a vendor names
// ---------------------------------------------------------------------------

/// A vendor's numbers.
#[derive(Clone, Copy, Debug)]
pub struct VendorIds {
    /// The mechanism that derives a master key.
    pub master_mechanism: MechanismType,
    /// The mechanism that derives a child key.
    pub child_mechanism: MechanismType,
    /// The attribute that carries the chain code.
    pub chain_code: AttributeType,
    /// The attribute that carries the depth.
    pub depth: AttributeType,
    /// The attribute that carries the parent's fingerprint.
    pub parent_fingerprint: AttributeType,
    /// The attribute that carries the child index.
    pub child_index: AttributeType,
}

/// A vendor that follows the common convention.
pub trait AttributeDerivation {
    /// The backend's name, for logs.
    fn backend_name(&self) -> &'static str;

    /// The mechanism that derives a master key.
    fn master_derive_mechanism(&self) -> MechanismType;

    /// The mechanism that derives a child key.
    fn child_derive_mechanism(&self) -> MechanismType;

    /// The attribute that carries the chain code.
    fn chain_code_attribute(&self) -> AttributeType;

    /// The attribute that carries the depth.
    fn depth_attribute(&self) -> AttributeType;

    /// The attribute that carries the parent's fingerprint.
    fn parent_fingerprint_attribute(&self) -> AttributeType;

    /// The attribute that carries the child index.
    fn child_index_attribute(&self) -> AttributeType;
}

/// Whether the vendor can name these numbers.
pub open spec fn names<T: AttributeDerivation>(vendor: &T, ids: VendorIds) -> bool {
    &&& call_ensures(T::master_derive_mechanism, (vendor,), ids.master_mechanism)
    &&& call_ensures(T::child_derive_mechanism, (vendor,), ids.child_mechanism)
    &&& call_ensures(T::chain_code_attribute, (vendor,), ids.chain_code)
    &&& call_ensures(T::depth_attribute, (vendor,), ids.depth)
    &&& call_ensures(T::parent_fingerprint_attribute, (vendor,), ids.parent_fingerprint)
    &&& call_ensures(T::child_index_attribute, (vendor,), ids.child_index)
}

/// Derivation by the common convention, with a vendor's numbers.
#[derive(Clone, Copy, Debug)]
pub struct StandardDerivation {
    /// The vendor's numbers.
    pub ids: VendorIds,
}

impl StandardDerivation {
    /// Derivation with the numbers of this vendor.
    pub fn of<T: AttributeDerivation>(vendor: &T) -> (d: StandardDerivation)
        ensures
            names(vendor, d.ids),
    {
        StandardDerivation {
            ids: VendorIds {
                master_mechanism: vendor.master_derive_mechanism(),
                child_mechanism: vendor.child_derive_mechanism(),
                chain_code: vendor.chain_code_attribute(),
                depth: vendor.depth_attribute(),
                parent_fingerprint: vendor.parent_fingerprint_attribute(),
                child_index: vendor.child_index_attribute(),
            },
        }
    }
}

// ---------------------------------------------------------------------------
// Key templates
// ---------------------------------------------------------------------------

/// The attributes of a new master key: it stays on the token under the label,
/// signs and derives, and never leaves the token.
pub open spec fn master_key(label: Seq<char>) -> Seq<AttributeView> {
    seq![
        AttributeView::Class(ObjectClass::PrivateKey),
        AttributeView::KeyType(KeyType::Ec),
        AttributeView::Token(true),
        AttributeView::Private(true),
        AttributeView::Sensitive(true),
        AttributeView::Extractable(false),
        AttributeView::Sign(true),
        AttributeView::Derive(true),
        AttributeView::Label(vstd::utf8::encode_utf8(label)),
        AttributeView::EcParams(key_ops::SECP256K1_OID_DER@),
    ]
}

fn master_key_template(label: &str) -> (t: Vec<Attribute>)
    ensures
        token::attributes(t@) == master_key(label@),
{
    let oid = key_ops::SECP256K1_OID_DER;
    let t = vec![
        Attribute::Class(ObjectClass::PrivateKey),
        Attribute::KeyType(KeyType::Ec),
        Attribute::Token(true),
        Attribute::Private(true),
        Attribute::Sensitive(true),
        Attribute::Extractable(false),
        Attribute::Sign(true),
        Attribute::Derive(true),
        Attribute::Label(text::text_bytes(label)),
        Attribute::EcParams(vstd::slice::slice_to_vec(oid.as_slice())),
    ];
    assert(token::attributes(t@) =~= master_key(label@));
    t
}

/// The attributes of a child key: as a master key, but it is gone with the
/// session and has no label.
pub open spec fn child_key() -> Seq<AttributeView> {
    seq![
        AttributeView::Class(ObjectClass::PrivateKey),
        AttributeView::KeyType(KeyType::Ec),
        AttributeView::Token(false),
        AttributeView::Private(true),
        AttributeView::Sensitive(true),
        AttributeView::Extractable(false),
        AttributeView::Sign(true),
        AttributeView::Derive(true),
        AttributeView::EcParams(key_ops::SECP256K1_OID_DER@),
    ]
}

fn child_key_template() -> (t: Vec<Attribute>)
    ensures
        token::attributes(t@) == child_key(),
{
    let oid = key_ops::SECP256K1_OID_DER;
    let t = vec![
        Attribute::Class(ObjectClass::PrivateKey),
        Attribute::KeyType(KeyType::Ec),
        Attribute::Token(false),
        Attribute::Private(true),
        Attribute::Sensitive(true),
        Attribute::Extractable(false),
        Attribute::Sign(true),
        Attribute::Derive(true),
        Attribute::EcParams(vstd::slice::slice_to_vec(oid.as_slice())),
    ];
    assert(token::attributes(t@) =~= child_key());
    t
}

/// The attributes of the passing key that carries a seed into a derivation.
pub open spec fn seed_secret(seed: Seq<u8>) -> Seq<AttributeView> {
    seq![
        AttributeView::Class(ObjectClass::SecretKey),
        AttributeView::KeyType(KeyType::GenericSecret),
        AttributeView::Token(false),
        AttributeView::Private(true),
        AttributeView::Sensitive(true),
        AttributeView::Extractable(false),
        AttributeView::Derive(true),
        AttributeView::Value(seed),
    ]
}

fn seed_secret_template(seed: Vec<u8>) -> (t: Vec<Attribute>)
    ensures
        token::attributes(t@) == seed_secret(seed@),
{
    let t = vec![
        Attribute::Class(ObjectClass::SecretKey),
        Attribute::KeyType(KeyType::GenericSecret),
        Attribute::Token(false),
        Attribute::Private(true),
        Attribute::Sensitive(true),
        Attribute::Extractable(false),
        Attribute::Derive(true),
        Attribute::Value(seed),
    ];
    assert(token::attributes(t@) =~= seed_secret(seed@));
    t
}

// ---------------------------------------------------------------------------
// Bytes
// ---------------------------------------------------------------------------

/// A word in four little-endian bytes.
pub open spec fn le_bytes(word: u32) -> Seq<u8> {
    seq![
        (word % 256) as u8,
        (word / 256 % 256) as u8,
        (word / 65536 % 256) as u8,
        (word / 16777216) as u8,
    ]
}

/// The word that four little-endian bytes write.
pub open spec fn le_value(bytes: Seq<u8>) -> u32 {
    (bytes[0] + bytes[1] * 256 + bytes[2] * 65536 + bytes[3] * 16777216) as u32
}

fn le_bytes_of(word: u32) -> (bytes: Vec<u8>)
    ensures
        bytes@ == le_bytes(word),
{
    let bytes = vec![
        (word % 256) as u8,
        (word / 256 % 256) as u8,
        (word / 65536 % 256) as u8,
        (word / 16777216) as u8,
    ];
    assert(bytes@ =~= le_bytes(word));
    bytes
}

/// A child index is read back from a key as it was written to derive it.
pub proof fn law_index_round_trip(child: ChildNumber)
    requires
        child.valid(),
    ensures
        ChildNumber::of_word(le_value(le_bytes(child.word()))) == child,
{
    crate::bip32::law_child_word_round_trip(child, 0);
    let w: u32 = child.word();
    let b = le_bytes(w);
    assert(w % 256 < 256 && w / 256 % 256 < 256 && w / 65536 % 256 < 256 && w / 16777216 < 256
        && w % 256 + w / 256 % 256 * 256 + w / 65536 % 256 * 65536 + w / 16777216 * 16777216 == w)
        by (bit_vector);
    assert(b[0] == w % 256 && b[1] == w / 256 % 256);
    assert(b[2] == w / 65536 % 256 && b[3] == w / 16777216);
    assert(le_value(b) == w);
}

fn array4(v: &Vec<u8>) -> (a: [u8; 4])
    requires
        v@.len() == 4,
    ensures
        a@ == v@,
{
    let a = [v[0], v[1], v[2], v[3]];
    assert(a@ =~= v@);
    a
}

fn array32(v: &Vec<u8>) -> (a: [u8; 32])
    requires
        v@.len() == 32,
    ensures
        a@ == v@,
{
    let mut a = [0u8; 32];
    let mut i: usize = 0;
    while i < 32
        invariant
            i <= 32,
            v@.len() == 32,
            forall|j: int| 0 <= j < i ==> a@[j] == v@[j],
        decreases 32 - i,
    {
        a[i] = v[i];
        i = i + 1;
    }
    assert(a@ =~= v@);
    a
}

// ---------------------------------------------------------------------------
// Reading an extended public key
// ---------------------------------------------------------------------------

/// The metadata that vendor attributes carry.
#[derive(Clone, Copy, Debug, PartialEq, Eq, Structural)]
pub enum MetadataField {
    /// The chain code.
    ChainCode,
    /// The depth.
    Depth,
    /// The parent's fingerprint.
    ParentFingerprint,
    /// The child index.
    ChildIndex,
}

/// What the vendor attribute with this number carries. Where a vendor gives one
/// number to two of them, the first in this order counts.
pub open spec fn field_of(ids: VendorIds, number: u64) -> Option<MetadataField> {
    let t = AttributeType::VendorDefined(number);
    if t == ids.chain_code {
        Some(MetadataField::ChainCode)
    } else if t == ids.depth {
        Some(MetadataField::Depth)
    } else if t == ids.parent_fingerprint {
        Some(MetadataField::ParentFingerprint)
    } else if t == ids.child_index {
        Some(MetadataField::ChildIndex)
    } else {
        None
    }
}

/// The last point among the attributes.
pub open spec fn last_point(list: Seq<AttributeView>) -> Option<Seq<u8>>
    decreases list.len(),
{
    if list.len() == 0 {
        None
    } else {
        match list.last() {
            AttributeView::EcPoint(v) => Some(v),
            _ => last_point(list.drop_last()),
        }
    }
}

/// The last value among the attributes that is of this field.
pub open spec fn last_field(ids: VendorIds, list: Seq<AttributeView>, field: MetadataField) -> Option<
    Seq<u8>,
>
    decreases list.len(),
{
    if list.len() == 0 {
        None
    } else {
        match list.last() {
            AttributeView::VendorDefined(number, v) if field_of(ids, number) == Some(field) => Some(
                v,
            ),
            _ => last_field(ids, list.drop_last(), field),
        }
    }
}

/// Whether the bytes can be an uncompressed point as it is.
pub open spec fn looks_bare(input: Seq<u8>) -> bool {
    input.len() == 65 && input[0] == 0x04
}

/// The public key that the bytes of `CKA_EC_POINT` hold, which may be bare or
/// wrapped in a DER OCTET STRING. Bytes that are an uncompressed point as they are
/// may read as an OCTET STRING too; the point counts.
pub open spec fn public_key_of(input: Seq<u8>) -> Result<Seq<u8>, HsmBackendErrorView> {
    if looks_bare(input) && outside::point_of(input) is Some {
        Ok(outside::point_of(input)->Some_0)
    } else {
        match key_ops::point_bytes(input) {
            Err(e) => Err(HsmBackendErrorView::MetadataError("EC point: "@ + e)),
            Ok(bytes) => match outside::point_of(bytes) {
                Some(key) => Ok(key),
                None => Err(
                    HsmBackendErrorView::MetadataError(
                        "invalid secp256k1 point: "@ + "malformed public key"@,
                    ),
                ),
            },
        }
    }
}

/// A point is read from a token that wraps points and from one that does not,
/// compressed or not.
pub proof fn law_points_are_read(point: Seq<u8>, key: Seq<u8>)
    requires
        outside::point_of(point) == Some(key),
        point.len() == 65 || (point.len() == 33 && point[0] != 0x04),
    ensures
        public_key_of(point) == Ok::<Seq<u8>, HsmBackendErrorView>(key),
        public_key_of(key_ops::octet_string(point)) == Ok::<Seq<u8>, HsmBackendErrorView>(key),
{
    let other = seq![0x02u8];
    assert(!key_ops::is_octet_string(other));
    key_ops::law_point_round_trip(point, other);
}

/// An error about metadata.
pub open spec fn metadata<A>(reason: Seq<char>) -> Result<A, HsmBackendErrorView> {
    Err(HsmBackendErrorView::MetadataError(reason))
}

/// The extended public key that the metadata makes up. The kind of network is
/// the main one: nothing on the token tells it.
pub open spec fn xpub_from(
    point: Seq<u8>,
    chain_code: Seq<u8>,
    depth: Seq<u8>,
    parent: Seq<u8>,
    index: Seq<u8>,
) -> Result<XpubView, HsmBackendErrorView> {
    match public_key_of(point) {
        Err(e) => Err(e),
        Ok(public_key) => if chain_code.len() != 32 {
            metadata("chain code != 32 bytes"@)
        } else if depth.len() == 0 {
            metadata("empty depth"@)
        } else if parent.len() != 4 {
            metadata("parent fingerprint != 4 bytes"@)
        } else if index.len() != 4 {
            metadata("child index != 4 bytes"@)
        } else {
            Ok(
                XpubView {
                    network: NetworkKind::Main,
                    depth: depth[0],
                    parent_fingerprint: parent,
                    child_number: ChildNumber::of_word(le_value(index)),
                    public_key,
                    chain_code,
                },
            )
        },
    }
}

/// The extended public key that a key's attributes make up.
pub open spec fn xpub_of(ids: VendorIds, list: Seq<AttributeView>) -> Result<
    XpubView,
    HsmBackendErrorView,
> {
    match (
        last_point(list),
        last_field(ids, list, MetadataField::ChainCode),
        last_field(ids, list, MetadataField::Depth),
        last_field(ids, list, MetadataField::ParentFingerprint),
        last_field(ids, list, MetadataField::ChildIndex),
    ) {
        (None, _, _, _, _) => metadata("missing CKA_EC_POINT"@),
        (_, None, _, _, _) => metadata("missing chain code"@),
        (_, _, None, _, _) => metadata("missing depth"@),
        (_, _, _, None, _) => metadata("missing parent fingerprint"@),
        (_, _, _, _, None) => metadata("missing child index"@),
        (Some(point), Some(chain_code), Some(depth), Some(parent), Some(index)) => xpub_from(
            point,
            chain_code,
            depth,
            parent,
            index,
        ),
    }
}

/// The attributes that make up an extended public key.
pub open spec fn xpub_attributes(ids: VendorIds) -> Seq<AttributeType> {
    seq![
        AttributeType::EcPoint,
        ids.chain_code,
        ids.depth,
        ids.parent_fingerprint,
        ids.child_index,
    ]
}

/// Reads a key's extended public key.
pub open spec fn xpub_reading(ids: VendorIds, key: ObjectHandle) -> Prog<
    Result<XpubView, HsmBackendErrorView>,
> {
    Prog::Ask(
        RequestView::GetAttributes(key, xpub_attributes(ids)),
        |r: ReplyView|
            match r {
                ReplyView::Attributes(Ok(list)) => Prog::Done(xpub_of(ids, list)),
                ReplyView::Attributes(Err(e)) => Prog::Done(Err(HsmBackendErrorView::Pkcs11(e))),
                _ => Prog::Stuck,
            },
    )
}

fn metadata_error<A>(reason: &str) -> (res: Result<A, HsmBackendError>)
    ensures
        res is Err,
        res->Err_0@ == HsmBackendErrorView::MetadataError(reason@),
{
    Err(HsmBackendError::MetadataError(reason.to_owned()))
}

/// What a result says.
pub open spec fn xpub_result(r: Result<Xpub, HsmBackendError>) -> Result<
    XpubView,
    HsmBackendErrorView,
> {
    match r {
        Ok(x) => Ok(x@),
        Err(e) => Err(e@),
    }
}

/// Reads the public key that the bytes of `CKA_EC_POINT` hold.
pub fn parse_ec_point(input: &[u8]) -> (res: Result<PublicKey, HsmBackendError>)
    ensures
        match res {
            Ok(key) => public_key_of(input@) == Ok::<Seq<u8>, HsmBackendErrorView>(key@),
            Err(e) => public_key_of(input@) == Err::<Seq<u8>, HsmBackendErrorView>(e@),
        },
{
    if input.len() == 65 && input[0] == 0x04 {
        if let Ok(key) = outside::parse_public_key(input) {
            return Ok(PublicKey { bytes: key });
        }
    }
    match key_ops::der_decode_octet_string_lenient(input) {
        Err(e) => Err(HsmBackendError::MetadataError(text::join2("EC point: ", e.as_str()))),
        Ok(bytes) => match outside::parse_public_key(bytes.as_slice()) {
            Ok(key) => Ok(PublicKey { bytes: key }),
            Err(e) => Err(
                HsmBackendError::MetadataError(
                    text::join2("invalid secp256k1 point: ", e.as_str()),
                ),
            ),
        },
    }
}

fn assemble_xpub(
    point: &Vec<u8>,
    chain_code: &Vec<u8>,
    depth: &Vec<u8>,
    parent: &Vec<u8>,
    index: &Vec<u8>,
) -> (res: Result<Xpub, HsmBackendError>)
    ensures
        xpub_result(res) == xpub_from(point@, chain_code@, depth@, parent@, index@),
{
    let public_key = match parse_ec_point(point.as_slice()) {
        Ok(key) => key,
        Err(e) => {
            return Err(e);
        },
    };
    if chain_code.len() != 32 {
        return metadata_error("chain code != 32 bytes");
    }
    if depth.len() == 0 {
        return metadata_error("empty depth");
    }
    if parent.len() != 4 {
        return metadata_error("parent fingerprint != 4 bytes");
    }
    if index.len() != 4 {
        return metadata_error("child index != 4 bytes");
    }
    let word: u32 = index[0] as u32 + index[1] as u32 * 256 + index[2] as u32 * 65536
        + index[3] as u32 * 16777216;
    Ok(
        Xpub {
            network: NetworkKind::Main,
            depth: depth[0],
            parent_fingerprint: Fingerprint { bytes: array4(parent) },
            child_number: ChildNumber::from_word(word),
            public_key,
            chain_code: ChainCode { bytes: array32(chain_code) },
        },
    )
}

fn find_field(ids: VendorIds, number: u64) -> (f: Option<MetadataField>)
    ensures
        f == field_of(ids, number),
{
    let t = AttributeType::VendorDefined(number);
    if t == ids.chain_code {
        Some(MetadataField::ChainCode)
    } else if t == ids.depth {
        Some(MetadataField::Depth)
    } else if t == ids.parent_fingerprint {
        Some(MetadataField::ParentFingerprint)
    } else if t == ids.child_index {
        Some(MetadataField::ChildIndex)
    } else {
        None
    }
}

fn copy_bytes(v: &Vec<u8>) -> (c: Vec<u8>)
    ensures
        c@ == v@,
{
    vstd::slice::slice_to_vec(v.as_slice())
}

/// Makes the extended public key out of a key's attributes.
pub fn xpub_from_attributes(ids: VendorIds, list: &Vec<Attribute>) -> (res: Result<
    Xpub,
    HsmBackendError,
>)
    ensures
        xpub_result(res) == xpub_of(ids, token::attributes(list@)),
{
    let mut point: Option<Vec<u8>> = None;
    let mut chain_code: Option<Vec<u8>> = None;
    let mut depth: Option<Vec<u8>> = None;
    let mut parent: Option<Vec<u8>> = None;
    let mut index: Option<Vec<u8>> = None;
    let n: usize = list.len();
    let mut i: usize = 0;
    let ghost all = token::attributes(list@);
    while i < n
        invariant
            i <= n,
            n == list@.len(),
            all == token::attributes(list@),
            crate::psbt::bytes_view(point) == last_point(all.take(i as int)),
            crate::psbt::bytes_view(chain_code) == last_field(
                ids,
                all.take(i as int),
                MetadataField::ChainCode,
            ),
            crate::psbt::bytes_view(depth) == last_field(
                ids,
                all.take(i as int),
                MetadataField::Depth,
            ),
            crate::psbt::bytes_view(parent) == last_field(
                ids,
                all.take(i as int),
                MetadataField::ParentFingerprint,
            ),
            crate::psbt::bytes_view(index) == last_field(
                ids,
                all.take(i as int),
                MetadataField::ChildIndex,
            ),
        decreases n - i,
    {
        proof {
            assert(all.take(i + 1).drop_last() =~= all.take(i as int));
            assert(all.take(i + 1).last() == list@[i as int]@);
        }
        match &list[i] {
            Attribute::EcPoint(v) => {
                point = Some(copy_bytes(v));
            },
            Attribute::VendorDefined(number, v) => match find_field(ids, *number) {
                Some(MetadataField::ChainCode) => {
                    chain_code = Some(copy_bytes(v));
                },
                Some(MetadataField::Depth) => {
                    depth = Some(copy_bytes(v));
                },
                Some(MetadataField::ParentFingerprint) => {
                    parent = Some(copy_bytes(v));
                },
                Some(MetadataField::ChildIndex) => {
                    index = Some(copy_bytes(v));
                },
                None => {},
            },
            _ => {},
        }
        i = i + 1;
    }
    assert(all.take(n as int) =~= all);
    let point = match point {
        Some(v) => v,
        None => {
            return metadata_error("missing CKA_EC_POINT");
        },
    };
    let chain_code = match chain_code {
        Some(v) => v,
        None => {
            return metadata_error("missing chain code");
        },
    };
    let depth = match depth {
        Some(v) => v,
        None => {
            return metadata_error("missing depth");
        },
    };
    let parent = match parent {
        Some(v) => v,
        None => {
            return metadata_error("missing parent fingerprint");
        },
    };
    let index = match index {
        Some(v) => v,
        None => {
            return metadata_error("missing child index");
        },
    };
    assemble_xpub(&point, &chain_code, &depth, &parent, &index)
}

/// Reads a key's extended public key.
pub struct ReadXpub {
    ids: VendorIds,
    key: ObjectHandle,
}

impl Operation for ReadXpub {
    type Out = Result<Xpub, HsmBackendError>;

    type OutView = Result<XpubView, HsmBackendErrorView>;

    closed spec fn prog(self) -> Prog<Result<XpubView, HsmBackendErrorView>> {
        xpub_reading(self.ids, self.key)
    }

    open spec fn out_view(out: Result<Xpub, HsmBackendError>) -> Result<
        XpubView,
        HsmBackendErrorView,
    > {
        xpub_result(out)
    }
}

impl Machine for ReadXpub {
    fn resume(self, reply: Reply) -> (step: Step<ReadXpub, Result<Xpub, HsmBackendError>>) {
        match reply {
            Reply::Attributes(Ok(list)) => Step::Done(xpub_from_attributes(self.ids, &list)),
            Reply::Attributes(Err(e)) => Step::Done(Err(HsmBackendError::Pkcs11(e))),
            _ => vstd::pervasive::unreached(),
        }
    }
}

impl StandardDerivation {
    /// Reads the extended public key of a key.
    pub fn read_xpub(&self, key: ObjectHandle) -> (step: Step<
        ReadXpub,
        Result<Xpub, HsmBackendError>,
    >)
        ensures
            program::runs_as(step, xpub_reading(self.ids, key)),
            step is Ask,
    {
        let wanted = vec![
            AttributeType::EcPoint,
            self.ids.chain_code,
            self.ids.depth,
            self.ids.parent_fingerprint,
            self.ids.child_index,
        ];
        assert(wanted@ =~= xpub_attributes(self.ids));
        Step::Ask(Request::GetAttributes(key, wanted), ReadXpub { ids: self.ids, key })
    }
}

// ---------------------------------------------------------------------------
// Reading the master fingerprint
// ---------------------------------------------------------------------------

/// The first point among the attributes.
pub open spec fn first_point(list: Seq<AttributeView>) -> Option<Seq<u8>>
    decreases list.len(),
{
    if list.len() == 0 {
        None
    } else {
        match list[0] {
            AttributeView::EcPoint(v) => Some(v),
            _ => first_point(list.drop_first()),
        }
    }
}

/// The fingerprint of the key whose attributes these are: the first four bytes
/// of the HASH160 of its compressed public key.
pub open spec fn fingerprint_of(list: Seq<AttributeView>) -> Result<Seq<u8>, HsmBackendErrorView> {
    match first_point(list) {
        None => metadata("missing CKA_EC_POINT"@),
        Some(point) => match public_key_of(point) {
            Err(e) => Err(e),
            Ok(key) => Ok(outside::hash160(key).take(4)),
        },
    }
}

/// Reads a key's fingerprint.
pub open spec fn fingerprint_reading(key: ObjectHandle) -> Prog<
    Result<Seq<u8>, HsmBackendErrorView>,
> {
    Prog::Ask(
        RequestView::GetAttributes(key, seq![AttributeType::EcPoint]),
        |r: ReplyView|
            match r {
                ReplyView::Attributes(Ok(list)) => Prog::Done(fingerprint_of(list)),
                ReplyView::Attributes(Err(e)) => Prog::Done(Err(HsmBackendErrorView::Pkcs11(e))),
                _ => Prog::Stuck,
            },
    )
}

/// What a result says.
pub open spec fn fingerprint_result(r: Result<Fingerprint, HsmBackendError>) -> Result<
    Seq<u8>,
    HsmBackendErrorView,
> {
    match r {
        Ok(f) => Ok(f@),
        Err(e) => Err(e@),
    }
}

/// The fingerprint of the key whose attributes these are.
pub fn fingerprint_from_attributes(list: &Vec<Attribute>) -> (res: Result<
    Fingerprint,
    HsmBackendError,
>)
    ensures
        fingerprint_result(res) == fingerprint_of(token::attributes(list@)),
{
    let n: usize = list.len();
    let mut i: usize = 0;
    let ghost all = token::attributes(list@);
    assert(all.skip(0) =~= all);
    while i < n
        invariant
            i <= n,
            n == list@.len(),
            all == token::attributes(list@),
            first_point(all) == first_point(all.skip(i as int)),
        decreases n - i,
    {
        assert(all.skip(i as int)[0] == list@[i as int]@);
        match &list[i] {
            Attribute::EcPoint(v) => {
                return match parse_ec_point(v.as_slice()) {
                    Err(e) => Err(e),
                    Ok(key) => {
                        let hash = outside::hash160_of(key.bytes.as_slice());
                        let bytes = [hash[0], hash[1], hash[2], hash[3]];
                        assert(bytes@ =~= outside::hash160(key@).take(4));
                        Ok(Fingerprint { bytes })
                    },
                };
            },
            _ => {},
        }
        assert(all.skip(i as int).drop_first() =~= all.skip(i + 1));
        i = i + 1;
    }
    metadata_error("missing CKA_EC_POINT")
}

/// Reads a key's fingerprint.
pub struct ReadFingerprint {
    key: ObjectHandle,
}

impl Operation for ReadFingerprint {
    type Out = Result<Fingerprint, HsmBackendError>;

    type OutView = Result<Seq<u8>, HsmBackendErrorView>;

    closed spec fn prog(self) -> Prog<Result<Seq<u8>, HsmBackendErrorView>> {
        fingerprint_reading(self.key)
    }

    open spec fn out_view(out: Result<Fingerprint, HsmBackendError>) -> Result<
        Seq<u8>,
        HsmBackendErrorView,
    > {
        fingerprint_result(out)
    }
}

impl Machine for ReadFingerprint {
    fn resume(self, reply: Reply) -> (step: Step<
        ReadFingerprint,
        Result<Fingerprint, HsmBackendError>,
    >) {
        match reply {
            Reply::Attributes(Ok(list)) => Step::Done(fingerprint_from_attributes(&list)),
            Reply::Attributes(Err(e)) => Step::Done(Err(HsmBackendError::Pkcs11(e))),
            _ => vstd::pervasive::unreached(),
        }
    }
}

impl StandardDerivation {
    /// Reads the fingerprint of a key; that of the master key is the one that
    /// tells a wallet's keys apart.
    pub fn master_fingerprint(&self, key: ObjectHandle) -> (step: Step<
        ReadFingerprint,
        Result<Fingerprint, HsmBackendError>,
    >)
        ensures
            program::runs_as(step, fingerprint_reading(key)),
            step is Ask,
    {
        let wanted = vec![AttributeType::EcPoint];
        assert(wanted@ =~= seq![AttributeType::EcPoint]);
        Step::Ask(Request::GetAttributes(key, wanted), ReadFingerprint { key })
    }
}

// ---------------------------------------------------------------------------
// Deriving children
// ---------------------------------------------------------------------------

/// What a derivation by the token comes to.
pub open spec fn derived(r: Result<ObjectHandle, TokenErrorView>) -> Result<
    ObjectHandle,
    HsmBackendErrorView,
> {
    match r {
        Ok(h) => Ok(h),
        Err(e) => Err(HsmBackendErrorView::Pkcs11(e)),
    }
}

/// What a result says.
pub open spec fn derived_view(r: Result<ObjectHandle, HsmBackendError>) -> Result<
    ObjectHandle,
    HsmBackendErrorView,
> {
    match r {
        Ok(h) => Ok(h),
        Err(e) => Err(e@),
    }
}

/// Derives one child of a key.
pub open spec fn child_derivation(ids: VendorIds, parent: ObjectHandle, child: ChildNumber) -> Prog<
    Result<ObjectHandle, HsmBackendErrorView>,
> {
    Prog::Ask(
        RequestView::DeriveKey {
            mechanism: ids.child_mechanism,
            parameter: le_bytes(child.word()),
            base: parent,
            template: child_key(),
        },
        |r: ReplyView|
            match r {
                ReplyView::Handle(res) => Prog::Done(derived(res)),
                _ => Prog::Stuck,
            },
    )
}

/// Derives one child of a key.
pub struct DeriveChild {
    ids: VendorIds,
    parent: ObjectHandle,
    child: ChildNumber,
}

impl Operation for DeriveChild {
    type Out = Result<ObjectHandle, HsmBackendError>;

    type OutView = Result<ObjectHandle, HsmBackendErrorView>;

    closed spec fn prog(self) -> Prog<Result<ObjectHandle, HsmBackendErrorView>> {
        child_derivation(self.ids, self.parent, self.child)
    }

    open spec fn out_view(out: Result<ObjectHandle, HsmBackendError>) -> Result<
        ObjectHandle,
        HsmBackendErrorView,
    > {
        derived_view(out)
    }
}

impl Machine for DeriveChild {
    fn resume(self, reply: Reply) -> (step: Step<
        DeriveChild,
        Result<ObjectHandle, HsmBackendError>,
    >) {
        match reply {
            Reply::Handle(Ok(h)) => Step::Done(Ok(h)),
            Reply::Handle(Err(e)) => Step::Done(Err(HsmBackendError::Pkcs11(e))),
            _ => vstd::pervasive::unreached(),
        }
    }
}

/// Derives a key along a path, one child after another.
pub open spec fn path_derivation(from: ObjectHandle, path: Seq<ChildNumber>) -> Prog<
    Result<ObjectHandle, HsmBackendErrorView>,
>
    decreases path.len(),
{
    if path.len() == 0 {
        Prog::Done(Ok(from))
    } else {
        Prog::Ask(
            RequestView::DeriveChild(from, path[0]),
            |r: ReplyView|
                match r {
                    ReplyView::Derived(Ok(h)) => path_derivation(h, path.drop_first()),
                    ReplyView::Derived(Err(e)) => Prog::Done(Err(e)),
                    _ => Prog::Stuck,
                },
        )
    }
}

/// Derives a key along a path.
pub struct DerivePath {
    at: ObjectHandle,
    path: DerivationPath,
    next: usize,
}

impl Operation for DerivePath {
    type Out = Result<ObjectHandle, HsmBackendError>;

    type OutView = Result<ObjectHandle, HsmBackendErrorView>;

    closed spec fn prog(self) -> Prog<Result<ObjectHandle, HsmBackendErrorView>> {
        if self.next <= self.path@.len() {
            path_derivation(self.at, self.path@.skip(self.next as int))
        } else {
            Prog::Stuck
        }
    }

    open spec fn out_view(out: Result<ObjectHandle, HsmBackendError>) -> Result<
        ObjectHandle,
        HsmBackendErrorView,
    > {
        derived_view(out)
    }
}

impl DerivePath {
    fn go_on(at: ObjectHandle, path: DerivationPath, next: usize) -> (step: Step<
        DerivePath,
        Result<ObjectHandle, HsmBackendError>,
    >)
        requires
            next <= path@.len(),
        ensures
            program::runs_as(step, path_derivation(at, path@.skip(next as int))),
    {
        if next == path.segments.len() {
            Step::Done(Ok(at))
        } else {
            let child = path.segments[next];
            Step::Ask(Request::DeriveChild(at, child), DerivePath { at, path, next })
        }
    }
}

impl Machine for DerivePath {
    fn resume(self, reply: Reply) -> (step: Step<
        DerivePath,
        Result<ObjectHandle, HsmBackendError>,
    >) {
        let ghost rest = self.path@.skip(self.next as int);
        assert(rest.len() > 0);
        match reply {
            Reply::Derived(Ok(h)) => {
                assert(self.next < self.path.segments.len());
                assert(rest.drop_first() =~= self.path@.skip(self.next + 1));
                DerivePath::go_on(h, self.path, self.next + 1)
            },
            Reply::Derived(Err(e)) => Step::Done(Err(e)),
            _ => vstd::pervasive::unreached(),
        }
    }
}

impl StandardDerivation {
    /// Derives one child of a key.
    pub fn derive_child_key(&self, parent: ObjectHandle, child: ChildNumber) -> (step: Step<
        DeriveChild,
        Result<ObjectHandle, HsmBackendError>,
    >)
        ensures
            program::runs_as(step, child_derivation(self.ids, parent, child)),
            step is Ask,
    {
        Step::Ask(
            Request::DeriveKey {
                mechanism: self.ids.child_mechanism,
                parameter: le_bytes_of(child.to_word()),
                base: parent,
                template: child_key_template(),
            },
            DeriveChild { ids: self.ids, parent, child },
        )
    }

    /// Derives a key along a path. Each child is asked of the backend, which
    /// may derive it in a way of its own.
    pub fn derive_path(&self, from: ObjectHandle, path: &DerivationPath) -> (step: Step<
        DerivePath,
        Result<ObjectHandle, HsmBackendError>,
    >)
        ensures
            program::runs_as(step, path_derivation(from, path@)),
    {
        let path = path.clone();
        assert(path@.skip(0) =~= path@);
        DerivePath::go_on(from, path, 0)
    }
}

// ---------------------------------------------------------------------------
// Deriving a master key
// ---------------------------------------------------------------------------

/// The seed as it goes into the derivation: sixty-four bytes, all zero where
/// the backend has the seed itself.
pub open spec fn seed_block(seed: Seq<u8>) -> Seq<u8> {
    if seed.len() == 64 {
        seed
    } else {
        Seq::new(64, |i: int| 0u8)
    }
}

/// What follows once the fingerprint is read.
pub open spec fn then_master(key: ObjectHandle, xpub: XpubView) -> spec_fn(
    Result<Seq<u8>, HsmBackendErrorView>,
) -> Prog<Result<MasterKeyView, HsmBackendErrorView>> {
    |d: Result<Seq<u8>, HsmBackendErrorView>|
        match d {
            Ok(fingerprint) => Prog::Done(
                Ok(MasterKeyView { key_handle: key, xpub, fingerprint }),
            ),
            Err(e) => Prog::Done(Err(e)),
        }
}

/// What follows once the extended public key is read.
pub open spec fn then_fingerprint(key: ObjectHandle) -> spec_fn(
    Result<XpubView, HsmBackendErrorView>,
) -> Prog<Result<MasterKeyView, HsmBackendErrorView>> {
    |d: Result<XpubView, HsmBackendErrorView>|
        match d {
            Ok(xpub) => fingerprint_reading(key).bind(then_master(key, xpub)),
            Err(e) => Prog::Done(Err(e)),
        }
}

/// Destroys the passing key, whatever came of the derivation and whether or not
/// the token minds, then reads the new key.
pub open spec fn drop_base(
    ids: VendorIds,
    base: ObjectHandle,
    made: Result<ObjectHandle, TokenErrorView>,
) -> Prog<Result<MasterKeyView, HsmBackendErrorView>> {
    Prog::Ask(
        RequestView::DestroyObject(base),
        |r: ReplyView|
            match r {
                ReplyView::Unit(_) => match made {
                    Ok(key) => xpub_reading(ids, key).bind(then_fingerprint(key)),
                    Err(e) => Prog::Done(Err(HsmBackendErrorView::Pkcs11(e))),
                },
                _ => Prog::Stuck,
            },
    )
}

/// Derives the master key from the passing key.
pub open spec fn derive_from_base(
    ids: VendorIds,
    block: Seq<u8>,
    label: Seq<char>,
    base: ObjectHandle,
) -> Prog<Result<MasterKeyView, HsmBackendErrorView>> {
    Prog::Ask(
        RequestView::DeriveKey {
            mechanism: ids.master_mechanism,
            parameter: block,
            base,
            template: master_key(label),
        },
        |r: ReplyView|
            match r {
                ReplyView::Handle(made) => drop_base(ids, base, made),
                _ => Prog::Stuck,
            },
    )
}

/// Derives a master key: makes a passing key of the seed, derives the master
/// key from it under the label, destroys the passing key, and reads the new
/// key's extended public key and fingerprint.
pub open spec fn master_derivation(ids: VendorIds, seed: Seq<u8>, label: Seq<char>) -> Prog<
    Result<MasterKeyView, HsmBackendErrorView>,
> {
    if seed.len() != 0 && seed.len() != 64 {
        Prog::Done(
            Err(
                HsmBackendErrorView::Derivation(
                    "BIP-32 master seed must be 64 bytes (or empty for backend-resolved seeds), got "@
                        + text::decimal(seed.len()),
                ),
            ),
        )
    } else {
        Prog::Ask(
            RequestView::CreateObject(seed_secret(seed_block(seed))),
            |r: ReplyView|
                match r {
                    ReplyView::Handle(Ok(base)) => derive_from_base(
                        ids,
                        seed_block(seed),
                        label,
                        base,
                    ),
                    ReplyView::Handle(Err(e)) => Prog::Done(Err(HsmBackendErrorView::Pkcs11(e))),
                    _ => Prog::Stuck,
                },
        )
    }
}

enum DeriveMasterState {
    Creating(Vec<u8>, String),
    Deriving(Ghost<Seq<u8>>, Ghost<Seq<char>>, ObjectHandle),
    Dropping(ObjectHandle, Result<ObjectHandle, token::TokenError>),
    ReadingXpub(ObjectHandle, ReadXpub),
    ReadingFingerprint(ObjectHandle, Xpub, ReadFingerprint),
}

/// Derives a master key.
pub struct DeriveMaster {
    ids: VendorIds,
    state: DeriveMasterState,
}

/// What a result says.
pub open spec fn made_view(r: Result<ObjectHandle, token::TokenError>) -> Result<
    ObjectHandle,
    TokenErrorView,
> {
    match r {
        Ok(h) => Ok(h),
        Err(e) => Err(e@),
    }
}

impl Operation for DeriveMaster {
    type Out = Result<MasterKeyHandle, HsmBackendError>;

    type OutView = Result<MasterKeyView, HsmBackendErrorView>;

    closed spec fn prog(self) -> Prog<Result<MasterKeyView, HsmBackendErrorView>> {
        match self.state {
            DeriveMasterState::Creating(block, label) if block@.len() == 64 => master_derivation(
                self.ids,
                block@,
                label@,
            ),
            DeriveMasterState::Deriving(block, label, base) => derive_from_base(
                self.ids,
                block@,
                label@,
                base,
            ),
            DeriveMasterState::Dropping(base, made) => drop_base(self.ids, base, made_view(made)),
            DeriveMasterState::ReadingXpub(key, m) if m.prog() is Ask => m.prog().bind(
                then_fingerprint(key),
            ),
            DeriveMasterState::ReadingFingerprint(key, xpub, m) if m.prog() is Ask => {
                m.prog().bind(then_master(key, xpub@))
            },
            _ => Prog::Stuck,
        }
    }

    open spec fn out_view(out: Result<MasterKeyHandle, HsmBackendError>) -> Result<
        MasterKeyView,
        HsmBackendErrorView,
    > {
        match out {
            Ok(m) => Ok(m@),
            Err(e) => Err(e@),
        }
    }
}

impl DeriveMaster {
    fn reading_xpub(
        ids: VendorIds,
        key: ObjectHandle,
        step: Step<ReadXpub, Result<Xpub, HsmBackendError>>,
        Ghost(prog): Ghost<Prog<Result<XpubView, HsmBackendErrorView>>>,
    ) -> (next: Step<DeriveMaster, Result<MasterKeyHandle, HsmBackendError>>)
        requires
            program::runs_as(step, prog),
        ensures
            program::runs_as(next, prog.bind(then_fingerprint(key))),
    {
        match step {
            Step::Ask(q, m) => Step::Ask(
                q,
                DeriveMaster { ids, state: DeriveMasterState::ReadingXpub(key, m) },
            ),
            Step::Done(Err(e)) => Step::Done(Err(e)),
            Step::Done(Ok(xpub)) => {
                let ghost next_prog = fingerprint_reading(key);
                let step = StandardDerivation { ids }.master_fingerprint(key);
                DeriveMaster::reading_fingerprint(ids, key, xpub, step, Ghost(next_prog))
            },
        }
    }

    fn reading_fingerprint(
        ids: VendorIds,
        key: ObjectHandle,
        xpub: Xpub,
        step: Step<ReadFingerprint, Result<Fingerprint, HsmBackendError>>,
        Ghost(prog): Ghost<Prog<Result<Seq<u8>, HsmBackendErrorView>>>,
    ) -> (next: Step<DeriveMaster, Result<MasterKeyHandle, HsmBackendError>>)
        requires
            program::runs_as(step, prog),
        ensures
            program::runs_as(next, prog.bind(then_master(key, xpub@))),
    {
        match step {
            Step::Ask(q, m) => Step::Ask(
                q,
                DeriveMaster { ids, state: DeriveMasterState::ReadingFingerprint(key, xpub, m) },
            ),
            Step::Done(Err(e)) => Step::Done(Err(e)),
            Step::Done(Ok(fingerprint)) => Step::Done(
                Ok(MasterKeyHandle { key_handle: key, xpub, fingerprint }),
            ),
        }
    }
}

impl Machine for DeriveMaster {
    fn resume(self, reply: Reply) -> (step: Step<
        DeriveMaster,
        Result<MasterKeyHandle, HsmBackendError>,
    >) {
        let ids = self.ids;
        match self.state {
            DeriveMasterState::Creating(block, label) => match reply {
                Reply::Handle(Ok(base)) => {
                    let ghost held = block@;
                    let ghost named = label@;
                    Step::Ask(
                        Request::DeriveKey {
                            mechanism: ids.master_mechanism,
                            parameter: block,
                            base,
                            template: master_key_template(label.as_str()),
                        },
                        DeriveMaster {
                            ids,
                            state: DeriveMasterState::Deriving(Ghost(held), Ghost(named), base),
                        },
                    )
                },
                Reply::Handle(Err(e)) => Step::Done(Err(HsmBackendError::Pkcs11(e))),
                _ => vstd::pervasive::unreached(),
            },
            DeriveMasterState::Deriving(_, _, base) => match reply {
                Reply::Handle(made) => Step::Ask(
                    Request::DestroyObject(base),
                    DeriveMaster { ids, state: DeriveMasterState::Dropping(base, made) },
                ),
                _ => vstd::pervasive::unreached(),
            },
            DeriveMasterState::Dropping(_, made) => match reply {
                Reply::Unit(_) => match made {
                    Err(e) => Step::Done(Err(HsmBackendError::Pkcs11(e))),
                    Ok(key) => {
                        let ghost prog = xpub_reading(ids, key);
                        let step = StandardDerivation { ids }.read_xpub(key);
                        DeriveMaster::reading_xpub(ids, key, step, Ghost(prog))
                    },
                },
                _ => vstd::pervasive::unreached(),
            },
            DeriveMasterState::ReadingXpub(key, m) => {
                let ghost prog = (m.prog()->Ask_1)(reply@);
                assert(prog.bind(then_fingerprint(key)) !is Stuck);
                let step = m.resume(reply);
                DeriveMaster::reading_xpub(ids, key, step, Ghost(prog))
            },
            DeriveMasterState::ReadingFingerprint(key, xpub, m) => {
                let ghost prog = (m.prog()->Ask_1)(reply@);
                assert(prog.bind(then_master(key, xpub@)) !is Stuck);
                let step = m.resume(reply);
                DeriveMaster::reading_fingerprint(ids, key, xpub, step, Ghost(prog))
            },
        }
    }
}

fn block_of(seed: &[u8]) -> (block: Vec<u8>)
    ensures
        block@ == seed_block(seed@),
{
    if seed.len() == 64 {
        vstd::slice::slice_to_vec(seed)
    } else {
        let mut block: Vec<u8> = Vec::new();
        let mut i: usize = 0;
        while i < 64
            invariant
                i <= 64,
                block@ == Seq::new(i as nat, |j: int| 0u8),
            decreases 64 - i,
        {
            block.push(0);
            assert(block@ =~= Seq::new((i + 1) as nat, |j: int| 0u8));
            i = i + 1;
        }
        assert(block@ =~= seed_block(seed@));
        block
    }
}

impl StandardDerivation {
    /// Derives a master key from a seed of sixty-four bytes, or from the seed
    /// that the backend has itself where this one is empty. The key is kept
    /// under `label`.
    pub fn derive_master_key(&self, seed: &[u8], label: &str) -> (step: Step<
        DeriveMaster,
        Result<MasterKeyHandle, HsmBackendError>,
    >)
        ensures
            program::runs_as(step, master_derivation(self.ids, seed@, label@)),
    {
        if seed.len() != 0 && seed.len() != 64 {
            return Step::Done(
                Err(
                    HsmBackendError::Derivation(
                        text::join2(
                            "BIP-32 master seed must be 64 bytes (or empty for backend-resolved seeds), got ",
                            text::decimal_text(seed.len() as u64).as_str(),
                        ),
                    ),
                ),
            );
        }
        let block = block_of(seed);
        proof {
            assert(seed_block(block@) == block@);
            if seed@.len() == 0 {
                lemma_same_from_block(self.ids, seed@, label@);
            }
        }
        let template = seed_secret_template(copy_bytes(&block));
        Step::Ask(
            Request::CreateObject(template),
            DeriveMaster {
                ids: self.ids,
                state: DeriveMasterState::Creating(block, label.to_owned()),
            },
        )
    }
}

/// A master derivation goes by the block that the seed comes to.
proof fn lemma_same_from_block(ids: VendorIds, seed: Seq<u8>, label: Seq<char>)
    requires
        seed.len() == 0 || seed.len() == 64,
    ensures
        master_derivation(ids, seed_block(seed), label) == master_derivation(ids, seed, label),
{
    let block = seed_block(seed);
    assert(seed_block(block) == block);
    let a = master_derivation(ids, block, label);
    let b = master_derivation(ids, seed, label);
    assert(a->Ask_1 =~= b->Ask_1);
}

} // verus!
