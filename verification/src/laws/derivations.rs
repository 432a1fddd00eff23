//! What goes into the derivation of keys, and what is read back from them.
use crate::backend;
use crate::backend::thales::ThalesBackend;
use crate::backend::utimaco::UtimacoBackend;
use crate::backend::{MetadataField, VendorIds};
use crate::bip32::{ChildNumber, NetworkKind};
use crate::error::HsmBackendErrorView;
use crate::key_ops;
use crate::outside;
use crate::program::{MasterKeyView, Prog, ReplyView, RequestView};
use crate::run;
use crate::token::{
    AttributeType, AttributeView, KeyType, ObjectClass, ObjectHandle, TokenErrorView,
};
use vstd::prelude::*;

verus! {

// ---------------------------------------------------------------------------
// Templates
// ---------------------------------------------------------------------------

/// Whether the template makes a key that never leaves the token: nothing in it says
/// that the key is not private, not sensitive, or extractable, and it says that it is
/// private, sensitive and not extractable.
pub open spec fn stays_inside(template: Seq<AttributeView>) -> bool {
    &&& template.contains(AttributeView::Private(true))
    &&& template.contains(AttributeView::Sensitive(true))
    &&& template.contains(AttributeView::Extractable(false))
    &&& !template.contains(AttributeView::Private(false))
    &&& !template.contains(AttributeView::Sensitive(false))
    &&& !template.contains(AttributeView::Extractable(true))
}

/// Whether the template makes a private key on the curve that bitcoin uses, which
/// signs and derives, and stays on the token just if `kept`.
pub open spec fn makes_private_key(template: Seq<AttributeView>, kept: bool) -> bool {
    &&& stays_inside(template)
    &&& template.contains(AttributeView::Class(ObjectClass::PrivateKey))
    &&& template.contains(AttributeView::KeyType(KeyType::Ec))
    &&& template.contains(
        AttributeView::EcParams(seq![0x06u8, 0x05u8, 0x2Bu8, 0x81u8, 0x04u8, 0x00u8, 0x0Au8]),
    )
    &&& template.contains(AttributeView::Sign(true))
    &&& template.contains(AttributeView::Derive(true))
    &&& template.contains(AttributeView::Token(kept))
    &&& !template.contains(AttributeView::Token(!kept))
}

proof fn lemma_master_template(label: Seq<char>)
    ensures
        makes_private_key(backend::master_key(label), true),
        backend::master_key(label).contains(
            AttributeView::Label(vstd::utf8::encode_utf8(label)),
        ),
{
    let t = backend::master_key(label);
    assert(key_ops::SECP256K1_OID_DER@ =~= seq![
        0x06u8,
        0x05u8,
        0x2Bu8,
        0x81u8,
        0x04u8,
        0x00u8,
        0x0Au8,
    ]);
    assert(t[0] == AttributeView::Class(ObjectClass::PrivateKey));
    assert(t[1] == AttributeView::KeyType(KeyType::Ec));
    assert(t[2] == AttributeView::Token(true));
    assert(t[3] == AttributeView::Private(true));
    assert(t[4] == AttributeView::Sensitive(true));
    assert(t[5] == AttributeView::Extractable(false));
    assert(t[6] == AttributeView::Sign(true));
    assert(t[7] == AttributeView::Derive(true));
    assert(t[8] == AttributeView::Label(vstd::utf8::encode_utf8(label)));
    assert(t[9] is EcParams);
}

proof fn lemma_child_template()
    ensures
        makes_private_key(backend::child_key(), false),
        forall|a: AttributeView| #[trigger] backend::child_key().contains(a) ==> a !is Label,
{
    let t = backend::child_key();
    assert(key_ops::SECP256K1_OID_DER@ =~= seq![
        0x06u8,
        0x05u8,
        0x2Bu8,
        0x81u8,
        0x04u8,
        0x00u8,
        0x0Au8,
    ]);
    assert(t[0] == AttributeView::Class(ObjectClass::PrivateKey));
    assert(t[1] == AttributeView::KeyType(KeyType::Ec));
    assert(t[2] == AttributeView::Token(false));
    assert(t[3] == AttributeView::Private(true));
    assert(t[4] == AttributeView::Sensitive(true));
    assert(t[5] == AttributeView::Extractable(false));
    assert(t[6] == AttributeView::Sign(true));
    assert(t[7] == AttributeView::Derive(true));
    assert(t[8] is EcParams);
}

// ---------------------------------------------------------------------------
// Seeds
// ---------------------------------------------------------------------------

/// The sixty-four bytes that a seed goes in as: the seed itself, or zeros where the
/// backend has the seed.
pub open spec fn goes_in_as(seed: Seq<u8>, bytes: Seq<u8>) -> bool {
    &&& bytes.len() == 64
    &&& forall|k: int|
        0 <= k < 64 ==> #[trigger] bytes[k] == (if seed.len() == 0 {
            0u8
        } else {
            seed[k]
        })
}

/// A seed goes into the derivation of a master key byte for byte: the passing key has
/// it as its value and nothing else, and it is the parameter of the derivation with
/// the vendor's master mechanism, from that very passing key, under the label. The
/// passing key is a secret of the session and never leaves the token. Where the
/// seed is empty both are zeros; a seed of another length is refused, and nothing is
/// asked for.
pub proof fn law_seed_goes_in_whole(ids: VendorIds, seed: Seq<u8>, label: Seq<char>)
    ensures
        ({
            let prog = backend::master_derivation(ids, seed, label);
            if seed.len() != 0 && seed.len() != 64 {
                prog is Done && prog->Done_0 is Err && prog->Done_0->Err_0 is Derivation
            } else {
                &&& prog is Ask
                &&& prog->Ask_0 is CreateObject
                &&& stays_inside(prog->Ask_0->CreateObject_0)
                &&& prog->Ask_0->CreateObject_0.contains(
                    AttributeView::Class(ObjectClass::SecretKey),
                )
                &&& prog->Ask_0->CreateObject_0.contains(
                    AttributeView::KeyType(KeyType::GenericSecret),
                )
                &&& prog->Ask_0->CreateObject_0.contains(AttributeView::Derive(true))
                &&& prog->Ask_0->CreateObject_0.contains(AttributeView::Token(false))
                &&& !prog->Ask_0->CreateObject_0.contains(AttributeView::Token(true))
                &&& exists|v: Seq<u8>| #[trigger]
                    prog->Ask_0->CreateObject_0.contains(AttributeView::Value(v))
                &&& forall|v: Seq<u8>| #[trigger]
                    prog->Ask_0->CreateObject_0.contains(AttributeView::Value(v)) ==> goes_in_as(
                        seed,
                        v,
                    )
                &&& forall|base: ObjectHandle|
                    {
                        let next = #[trigger] (prog->Ask_1)(ReplyView::Handle(Ok(base)));
                        &&& next is Ask
                        &&& next->Ask_0 is DeriveKey
                        &&& next->Ask_0->mechanism == ids.master_mechanism
                        &&& goes_in_as(seed, next->Ask_0->parameter)
                        &&& next->Ask_0->base == base
                        &&& makes_private_key(next->Ask_0->template, true)
                        &&& next->Ask_0->template.contains(
                            AttributeView::Label(vstd::utf8::encode_utf8(label)),
                        )
                    }
            }
        }),
{
    let prog = backend::master_derivation(ids, seed, label);
    if seed.len() == 0 || seed.len() == 64 {
        let t = prog->Ask_0->CreateObject_0;
        assert(t[0] == AttributeView::Class(ObjectClass::SecretKey));
        assert(t[1] == AttributeView::KeyType(KeyType::GenericSecret));
        assert(t[2] == AttributeView::Token(false));
        assert(t[3] == AttributeView::Private(true));
        assert(t[4] == AttributeView::Sensitive(true));
        assert(t[5] == AttributeView::Extractable(false));
        assert(t[6] == AttributeView::Derive(true));
        assert(t[7] == AttributeView::Value(backend::seed_block(seed)));
        assert(t.contains(AttributeView::Value(backend::seed_block(seed))));
        assert(goes_in_as(seed, backend::seed_block(seed)));
        assert forall|v: Seq<u8>| #[trigger] t.contains(AttributeView::Value(v)) implies goes_in_as(
            seed,
            v,
        ) by {
            let k = t.index_of(AttributeView::Value(v));
            assert(k == 7);
        }
        lemma_master_template(label);
    }
}

/// Once the token has derived the master key, or has refused to, the passing key is
/// destroyed. Where there is a master key, its extended public key and then its
/// fingerprint are read from that very key.
pub proof fn law_passing_key_goes(
    ids: VendorIds,
    block: Seq<u8>,
    label: Seq<char>,
    base: ObjectHandle,
    made: Result<ObjectHandle, TokenErrorView>,
    destroyed: Result<(), TokenErrorView>,
    attributes: Seq<AttributeView>,
    point: Seq<AttributeView>,
)
    ensures
        ({
            let prog = backend::derive_from_base(ids, block, label, base);
            let first = seq![ReplyView::Handle(made)];
            let second = first.push(ReplyView::Unit(destroyed));
            let third = second.push(ReplyView::Attributes(Ok(attributes)));
            let fourth = third.push(ReplyView::Attributes(Ok(point)));
            &&& run::behind(prog, first) is Ask
            &&& run::behind(prog, first)->Ask_0 == RequestView::DestroyObject(base)
            &&& match made {
                Err(e) => run::behind(prog, second) == Prog::<
                    Result<MasterKeyView, HsmBackendErrorView>,
                >::Done(Err(HsmBackendErrorView::Pkcs11(e))),
                Ok(key) => {
                    &&& run::behind(prog, second) is Ask
                    &&& run::behind(prog, second)->Ask_0 is GetAttributes
                    &&& run::behind(prog, second)->Ask_0->GetAttributes_0 == key
                    &&& match backend::xpub_of(ids, attributes) {
                        Err(e) => run::behind(prog, third) == Prog::<
                            Result<MasterKeyView, HsmBackendErrorView>,
                        >::Done(Err(e)),
                        Ok(xpub) => {
                            &&& run::behind(prog, third) is Ask
                            &&& run::behind(prog, third)->Ask_0 is GetAttributes
                            &&& run::behind(prog, third)->Ask_0->GetAttributes_0 == key
                            &&& match backend::fingerprint_of(point) {
                                Err(e) => run::behind(prog, fourth) == Prog::<
                                    Result<MasterKeyView, HsmBackendErrorView>,
                                >::Done(Err(e)),
                                Ok(fingerprint) => run::behind(prog, fourth) == Prog::<
                                    Result<MasterKeyView, HsmBackendErrorView>,
                                >::Done(
                                    Ok(MasterKeyView { key_handle: key, xpub, fingerprint }),
                                ),
                            }
                        },
                    }
                },
            }
        }),
{
    let prog = backend::derive_from_base(ids, block, label, base);
    let first = seq![ReplyView::Handle(made)];
    let second = first.push(ReplyView::Unit(destroyed));
    let third = second.push(ReplyView::Attributes(Ok(attributes)));
    let fourth = third.push(ReplyView::Attributes(Ok(point)));
    lemma_behind_push(prog, Seq::empty(), ReplyView::Handle(made));
    assert(Seq::<ReplyView>::empty().push(ReplyView::Handle(made)) =~= first);
    lemma_behind_push(prog, first, ReplyView::Unit(destroyed));
    if let Ok(key) = made {
        let reading = backend::xpub_reading(ids, key);
        assert(run::behind(prog, second) == reading.bind(backend::then_fingerprint(key)));
        let r = ReplyView::Attributes(Ok::<Seq<AttributeView>, TokenErrorView>(attributes));
        lemma_behind_push(prog, second, r);
        assert(run::behind(prog, third) == (reading->Ask_1)(r).bind(
            backend::then_fingerprint(key),
        ));
        if let Ok(xpub) = backend::xpub_of(ids, attributes) {
            let last = backend::fingerprint_reading(key);
            let p = ReplyView::Attributes(Ok::<Seq<AttributeView>, TokenErrorView>(point));
            lemma_behind_push(prog, third, p);
            assert(run::behind(prog, third) == last.bind(backend::then_master(key, xpub)));
            assert(run::behind(prog, fourth) == (last->Ask_1)(p).bind(
                backend::then_master(key, xpub),
            ));
        }
    }
}

/// One reply more takes a program one step further.
pub(crate) proof fn lemma_behind_push<A>(prog: Prog<A>, replies: Seq<ReplyView>, r: ReplyView)
    requires
        run::behind(prog, replies) is Ask,
    ensures
        run::behind(prog, replies.push(r)) == (run::behind(prog, replies)->Ask_1)(r),
    decreases replies.len(),
{
    if replies.len() == 0 {
        reveal_with_fuel(run::behind, 2);
        assert(replies.push(r).drop_first() =~= Seq::empty());
    } else if let Prog::Ask(_, next) = prog {
        assert(replies.push(r).drop_first() =~= replies.drop_first().push(r));
        lemma_behind_push(next(replies[0]), replies.drop_first(), r);
    }
}

// ---------------------------------------------------------------------------
// Children
// ---------------------------------------------------------------------------

/// The number of a child: its index, and two to the thirty-first more where it is
/// hardened.
pub open spec fn child_value(child: ChildNumber) -> int {
    match child {
        ChildNumber::Normal { index } => index as int,
        ChildNumber::Hardened { index } => index + 0x8000_0000,
    }
}

/// A child is derived with the vendor's child mechanism from its parent, and its
/// number is the parameter: four bytes, the least significant first. The child is
/// a private key of the session without a label, and never leaves the token. What the
/// token answers is what comes of it.
pub proof fn law_child_number_is_little_endian(
    ids: VendorIds,
    parent: ObjectHandle,
    child: ChildNumber,
    h: ObjectHandle,
    e: TokenErrorView,
)
    requires
        child.valid(),
    ensures
        ({
            let prog = backend::child_derivation(ids, parent, child);
            let parameter = prog->Ask_0->parameter;
            let value = child_value(child);
            &&& prog is Ask
            &&& prog->Ask_0 is DeriveKey
            &&& prog->Ask_0->mechanism == ids.child_mechanism
            &&& prog->Ask_0->base == parent
            &&& makes_private_key(prog->Ask_0->template, false)
            &&& forall|a: AttributeView| #[trigger]
                prog->Ask_0->template.contains(a) ==> a !is Label
            &&& parameter.len() == 4
            &&& parameter[0] == value % 256
            &&& parameter[1] == value / 256 % 256
            &&& parameter[2] == value / 65536 % 256
            &&& parameter[3] == value / 16777216 % 256
            &&& (prog->Ask_1)(ReplyView::Handle(Ok(h))) == Prog::<
                Result<ObjectHandle, HsmBackendErrorView>,
            >::Done(Ok(h))
            &&& (prog->Ask_1)(ReplyView::Handle(Err(e))) == Prog::<
                Result<ObjectHandle, HsmBackendErrorView>,
            >::Done(Err(HsmBackendErrorView::Pkcs11(e)))
        }),
{
    lemma_child_template();
    let word = child.word();
    if let ChildNumber::Hardened { index } = child {
        assert(index | 0x8000_0000 == index + 0x8000_0000) by (bit_vector)
            requires
                index < 0x8000_0000u32,
        ;
    }
    assert(word == child_value(child));
    assert(word / 16777216 < 256);
}

/// A path is followed step by step: each child is asked of the backend in the order
/// of the path, the first from the key where the path starts and every other from the
/// child before it. The last child is what comes of it; the key itself where there are
/// no steps.
pub proof fn law_path_is_followed(
    from: ObjectHandle,
    path: Seq<ChildNumber>,
    children: Seq<ObjectHandle>,
)
    requires
        children.len() == path.len(),
    ensures
        ({
            let prog = backend::path_derivation(from, path);
            let replies = Seq::new(path.len(), |i: int| ReplyView::Derived(Ok(children[i])));
            &&& run::asked(prog, replies) == Seq::new(
                path.len(),
                |i: int|
                    RequestView::DeriveChild(
                        if i == 0 {
                            from
                        } else {
                            children[i - 1]
                        },
                        path[i],
                    ),
            )
            &&& run::behind(prog, replies) == Prog::<
                Result<ObjectHandle, HsmBackendErrorView>,
            >::Done(
                Ok(
                    if path.len() == 0 {
                        from
                    } else {
                        children[path.len() - 1]
                    },
                ),
            )
        }),
    decreases path.len(),
{
    let prog = backend::path_derivation(from, path);
    let replies = Seq::new(path.len(), |i: int| ReplyView::Derived(Ok(children[i])));
    let wanted = Seq::new(
        path.len(),
        |i: int|
            RequestView::DeriveChild(
                if i == 0 {
                    from
                } else {
                    children[i - 1]
                },
                path[i],
            ),
    );
    if path.len() == 0 {
        assert(run::asked(prog, replies) =~= wanted);
    } else {
        let rest = path.drop_first();
        let others = children.drop_first();
        let later = Seq::new(rest.len(), |i: int| ReplyView::Derived(Ok(others[i])));
        law_path_is_followed(children[0], rest, others);
        assert(replies.drop_first() =~= later);
        assert(replies[0] == ReplyView::Derived(Ok(children[0])));
        assert((prog->Ask_1)(replies[0]) == backend::path_derivation(children[0], rest));
        assert(run::asked(prog, replies) =~= wanted);
    }
}

/// Where the backend cannot derive a step, that is what comes of the path, and no
/// further step is asked for.
pub proof fn law_path_ends_at_a_failure(
    from: ObjectHandle,
    path: Seq<ChildNumber>,
    children: Seq<ObjectHandle>,
    e: HsmBackendErrorView,
)
    requires
        children.len() < path.len(),
    ensures
        run::behind(
            backend::path_derivation(from, path),
            Seq::new(children.len(), |i: int| ReplyView::Derived(Ok(children[i]))).push(
                ReplyView::Derived(Err(e)),
            ),
        ) == Prog::<Result<ObjectHandle, HsmBackendErrorView>>::Done(Err(e)),
    decreases path.len(),
{
    let prog = backend::path_derivation(from, path);
    let before = Seq::new(children.len(), |i: int| ReplyView::Derived(Ok(children[i])));
    let replies = before.push(ReplyView::Derived(Err(e)));
    if children.len() == 0 {
        reveal_with_fuel(run::behind, 2);
        assert(replies.drop_first() =~= Seq::empty());
        assert(replies[0] == ReplyView::Derived(Err(e)));
    } else {
        let others = children.drop_first();
        law_path_ends_at_a_failure(children[0], path.drop_first(), others, e);
        assert(replies.drop_first() =~= Seq::new(
            others.len(),
            |i: int| ReplyView::Derived(Ok(others[i])),
        ).push(ReplyView::Derived(Err(e))));
        assert(replies[0] == ReplyView::Derived(Ok(children[0])));
        assert((prog->Ask_1)(replies[0]) == backend::path_derivation(
            children[0],
            path.drop_first(),
        ));
    }
}

// ---------------------------------------------------------------------------
// What is read back
// ---------------------------------------------------------------------------

/// Whether the attribute at `i` is the last point among the attributes.
pub open spec fn is_last_point(list: Seq<AttributeView>, i: int, point: Seq<u8>) -> bool {
    &&& 0 <= i < list.len()
    &&& list[i] == AttributeView::EcPoint(point)
    &&& forall|k: int| i < k < list.len() ==> #[trigger] list[k] !is EcPoint
}

/// Whether the attribute at `i` is the last vendor attribute with this number.
pub open spec fn is_last_numbered(
    list: Seq<AttributeView>,
    i: int,
    number: u64,
    value: Seq<u8>,
) -> bool {
    &&& 0 <= i < list.len()
    &&& list[i] == AttributeView::VendorDefined(number, value)
    &&& forall|k: int|
        i < k < list.len() ==> !(#[trigger] list[k] matches AttributeView::VendorDefined(n, _) && n
            == number)
}

proof fn lemma_last_point(list: Seq<AttributeView>, i: int, point: Seq<u8>)
    requires
        is_last_point(list, i, point),
    ensures
        backend::last_point(list) == Some(point),
    decreases list.len(),
{
    if i < list.len() - 1 {
        let rest = list.drop_last();
        assert(list[list.len() - 1] !is EcPoint);
        assert(is_last_point(rest, i, point));
        lemma_last_point(rest, i, point);
    }
}

proof fn lemma_last_field(
    ids: VendorIds,
    list: Seq<AttributeView>,
    field: MetadataField,
    i: int,
    number: u64,
    value: Seq<u8>,
)
    requires
        is_last_numbered(list, i, number, value),
        forall|n: u64| #[trigger] backend::field_of(ids, n) == Some(field) <==> n == number,
    ensures
        backend::last_field(ids, list, field) == Some(value),
    decreases list.len(),
{
    assert(backend::field_of(ids, number) == Some(field));
    if i < list.len() - 1 {
        let rest = list.drop_last();
        let last = list[list.len() - 1];
        if let AttributeView::VendorDefined(n, _) = last {
            assert(n != number);
            assert(backend::field_of(ids, n) != Some(field));
        }
        assert(is_last_numbered(rest, i, number, value));
        lemma_last_field(ids, rest, field, i, number, value);
    }
}

/// An extended public key is asked for by the point and the vendor's four attributes,
/// and is read from them: the depth is the first byte of its attribute, the parent's
/// fingerprint and the chain code are theirs as they are, and the child number is the
/// one that its four bytes write, the least significant first: a normal child below
/// two to the thirty-first, and a hardened one from there on.
pub proof fn law_xpub_is_what_is_read(
    ids: VendorIds,
    key: ObjectHandle,
    list: Seq<AttributeView>,
    numbers: (u64, u64, u64, u64),
    places: (int, int, int, int, int),
    point: Seq<u8>,
    public_key: Seq<u8>,
    chain_code: Seq<u8>,
    depth: Seq<u8>,
    parent: Seq<u8>,
    index: Seq<u8>,
)
    requires
        ids.chain_code == AttributeType::VendorDefined(numbers.0),
        ids.depth == AttributeType::VendorDefined(numbers.1),
        ids.parent_fingerprint == AttributeType::VendorDefined(numbers.2),
        ids.child_index == AttributeType::VendorDefined(numbers.3),
        numbers.0 != numbers.1 && numbers.0 != numbers.2 && numbers.0 != numbers.3,
        numbers.1 != numbers.2 && numbers.1 != numbers.3 && numbers.2 != numbers.3,
        is_last_point(list, places.0, point),
        is_last_numbered(list, places.1, numbers.0, chain_code),
        is_last_numbered(list, places.2, numbers.1, depth),
        is_last_numbered(list, places.3, numbers.2, parent),
        is_last_numbered(list, places.4, numbers.3, index),
        backend::public_key_of(point) == Ok::<Seq<u8>, HsmBackendErrorView>(public_key),
    ensures
        ({
            let prog = backend::xpub_reading(ids, key);
            let read = (prog->Ask_1)(ReplyView::Attributes(Ok(list)));
            let value = index[0] + index[1] * 256 + index[2] * 65536 + index[3] * 16777216;
            &&& prog is Ask
            &&& prog->Ask_0 is GetAttributes
            &&& prog->Ask_0->GetAttributes_0 == key
            &&& prog->Ask_0->GetAttributes_1.contains(AttributeType::EcPoint)
            &&& prog->Ask_0->GetAttributes_1.contains(ids.chain_code)
            &&& prog->Ask_0->GetAttributes_1.contains(ids.depth)
            &&& prog->Ask_0->GetAttributes_1.contains(ids.parent_fingerprint)
            &&& prog->Ask_0->GetAttributes_1.contains(ids.child_index)
            &&& read is Done
            &&& read->Done_0 is Ok <==> chain_code.len() == 32 && depth.len() > 0 && parent.len()
                == 4 && index.len() == 4
            &&& read->Done_0 matches Ok(xpub) ==> {
                &&& xpub.network == NetworkKind::Main
                &&& xpub.depth == depth[0]
                &&& xpub.parent_fingerprint == parent
                &&& xpub.chain_code == chain_code
                &&& xpub.public_key == public_key
                &&& child_value(xpub.child_number) == value
                &&& xpub.child_number is Hardened <==> value >= 0x8000_0000
            }
            &&& read->Done_0 is Err ==> read->Done_0->Err_0 is MetadataError
        }),
{
    lemma_last_point(list, places.0, point);
    lemma_last_field(ids, list, MetadataField::ChainCode, places.1, numbers.0, chain_code);
    lemma_last_field(ids, list, MetadataField::Depth, places.2, numbers.1, depth);
    lemma_last_field(ids, list, MetadataField::ParentFingerprint, places.3, numbers.2, parent);
    lemma_last_field(ids, list, MetadataField::ChildIndex, places.4, numbers.3, index);
    let wanted = backend::xpub_attributes(ids);
    assert(wanted[0] == AttributeType::EcPoint);
    assert(wanted[1] == ids.chain_code);
    assert(wanted[2] == ids.depth);
    assert(wanted[3] == ids.parent_fingerprint);
    assert(wanted[4] == ids.child_index);
}

/// An extended public key needs all five attributes: without one of them there is
/// none, and the metadata is to blame.
pub proof fn law_xpub_needs_all(ids: VendorIds, list: Seq<AttributeView>)
    ensures
        (forall|i: int| 0 <= i < list.len() ==> #[trigger] list[i] !is EcPoint)
            ==> backend::xpub_of(ids, list) is Err,
        forall|t: AttributeType|
            (t == ids.chain_code || t == ids.depth || t == ids.parent_fingerprint || t
                == ids.child_index) && (forall|i: int|
                0 <= i < list.len() ==> !(#[trigger] list[i] matches AttributeView::VendorDefined(
                    n,
                    _,
                ) && AttributeType::VendorDefined(n) == t)) ==> #[trigger] lacks(ids, list, t),
{
    lemma_no_point(list);
    assert forall|t: AttributeType|
        (t == ids.chain_code || t == ids.depth || t == ids.parent_fingerprint || t
            == ids.child_index) && (forall|i: int|
            0 <= i < list.len() ==> !(#[trigger] list[i] matches AttributeView::VendorDefined(n, _)
                && AttributeType::VendorDefined(n) == t)) implies #[trigger] lacks(
        ids,
        list,
        t,
    ) by {
        if t == ids.chain_code {
            lemma_no_field(ids, list, MetadataField::ChainCode, t);
        }
        if t == ids.depth {
            lemma_no_field(ids, list, MetadataField::Depth, t);
        }
        if t == ids.parent_fingerprint {
            lemma_no_field(ids, list, MetadataField::ParentFingerprint, t);
        }
        if t == ids.child_index {
            lemma_no_field(ids, list, MetadataField::ChildIndex, t);
        }
    }
}

/// Whether the attributes make up no extended public key, for want of one of this
/// type.
pub open spec fn lacks(ids: VendorIds, list: Seq<AttributeView>, t: AttributeType) -> bool {
    backend::xpub_of(ids, list) matches Err(e) && e is MetadataError
}

proof fn lemma_no_point(list: Seq<AttributeView>)
    ensures
        (forall|i: int| 0 <= i < list.len() ==> #[trigger] list[i] !is EcPoint)
            ==> backend::last_point(list) is None,
    decreases list.len(),
{
    if list.len() != 0 {
        let rest = list.drop_last();
        lemma_no_point(rest);
        if forall|i: int| 0 <= i < list.len() ==> #[trigger] list[i] !is EcPoint {
            assert forall|i: int| 0 <= i < rest.len() implies #[trigger] rest[i] !is EcPoint by {
                assert(list[i] == rest[i]);
            }
            assert(list[list.len() - 1] !is EcPoint);
        }
    }
}

proof fn lemma_no_field(
    ids: VendorIds,
    list: Seq<AttributeView>,
    field: MetadataField,
    t: AttributeType,
)
    requires
        forall|i: int|
            0 <= i < list.len() ==> !(#[trigger] list[i] matches AttributeView::VendorDefined(n, _)
                && AttributeType::VendorDefined(n) == t),
        t == (match field {
            MetadataField::ChainCode => ids.chain_code,
            MetadataField::Depth => ids.depth,
            MetadataField::ParentFingerprint => ids.parent_fingerprint,
            MetadataField::ChildIndex => ids.child_index,
        }),
    ensures
        backend::last_field(ids, list, field) is None,
    decreases list.len(),
{
    if list.len() != 0 {
        let rest = list.drop_last();
        assert forall|i: int| 0 <= i < rest.len() implies !(
        #[trigger] rest[i] matches AttributeView::VendorDefined(n, _)
            && AttributeType::VendorDefined(n) == t) by {
            assert(list[i] == rest[i]);
        }
        lemma_no_field(ids, rest, field, t);
        let last = list[list.len() - 1];
        assert(!(last matches AttributeView::VendorDefined(n, _) && AttributeType::VendorDefined(n)
            == t));
    }
}

proof fn lemma_first_point(list: Seq<AttributeView>, i: int, point: Seq<u8>)
    requires
        0 <= i < list.len(),
        list[i] == AttributeView::EcPoint(point),
        forall|k: int| 0 <= k < i ==> #[trigger] list[k] !is EcPoint,
    ensures
        backend::first_point(list) == Some(point),
    decreases list.len(),
{
    if i > 0 {
        let rest = list.drop_first();
        assert(list[0] !is EcPoint);
        assert forall|k: int| 0 <= k < i - 1 implies #[trigger] rest[k] !is EcPoint by {
            assert(list[k + 1] == rest[k]);
        }
        lemma_first_point(rest, i - 1, point);
    }
}

/// A key's fingerprint is the first four bytes of the hash of the public key that its
/// point, which is what is asked for, holds.
pub proof fn law_fingerprint_is_of_the_key(
    key: ObjectHandle,
    list: Seq<AttributeView>,
    i: int,
    point: Seq<u8>,
    public_key: Seq<u8>,
)
    requires
        0 <= i < list.len(),
        list[i] == AttributeView::EcPoint(point),
        forall|k: int| 0 <= k < i ==> #[trigger] list[k] !is EcPoint,
        backend::public_key_of(point) == Ok::<Seq<u8>, HsmBackendErrorView>(public_key),
    ensures
        ({
            let prog = backend::fingerprint_reading(key);
            &&& prog is Ask
            &&& prog->Ask_0 is GetAttributes
            &&& prog->Ask_0->GetAttributes_0 == key
            &&& prog->Ask_0->GetAttributes_1.contains(AttributeType::EcPoint)
            &&& (prog->Ask_1)(ReplyView::Attributes(Ok(list))) == Prog::<
                Result<Seq<u8>, HsmBackendErrorView>,
            >::Done(Ok(outside::hash160(public_key).subrange(0, 4)))
        }),
{
    lemma_first_point(list, i, point);
    let prog = backend::fingerprint_reading(key);
    assert(prog->Ask_0->GetAttributes_1[0] == AttributeType::EcPoint);
    assert(outside::hash160(public_key).take(4) =~= outside::hash160(public_key).subrange(0, 4));
}

// ---------------------------------------------------------------------------
// Vendors
// ---------------------------------------------------------------------------

/// The numbers that the two vendors name: each has a mechanism of its own for master
/// keys and one for children, and its four attributes are told apart.
pub proof fn law_vendors_name_their_numbers(
    thales: ThalesBackend,
    utimaco: UtimacoBackend,
    a: VendorIds,
    b: VendorIds,
)
    requires
        backend::names(&thales, a),
        backend::names(&utimaco, b),
    ensures
        a.master_mechanism.value == 0x8000_0501,
        a.child_mechanism.value == 0x8000_0502,
        a.chain_code == AttributeType::VendorDefined(0x8000_0601),
        a.depth == AttributeType::VendorDefined(0x8000_0602),
        a.parent_fingerprint == AttributeType::VendorDefined(0x8000_0603),
        a.child_index == AttributeType::VendorDefined(0x8000_0604),
        b.master_mechanism.value == 0x8000_0001,
        b.child_mechanism.value == 0x8000_0002,
        b.chain_code == AttributeType::VendorDefined(0x8000_0101),
        b.depth == AttributeType::VendorDefined(0x8000_0102),
        b.parent_fingerprint == AttributeType::VendorDefined(0x8000_0103),
        b.child_index == AttributeType::VendorDefined(0x8000_0104),
{
}

// ---------------------------------------------------------------------------
// Points
// ---------------------------------------------------------------------------

/// Wrapped bytes are a DER OCTET STRING: its tag, its length, most significant byte
/// first and with as few bytes as it takes, and the bytes themselves. What is in it
/// is read out of it again.
pub proof fn law_octet_string_is_der(content: Seq<u8>)
    requires
        content.len() < 0x10000,
    ensures
        ({
            let n = content.len();
            let s = key_ops::octet_string(content);
            &&& s[0] == 0x04
            &&& n < 0x80 ==> s.len() == n + 2 && s[1] == n
            &&& 0x80 <= n < 0x100 ==> s.len() == n + 3 && s[1] == 0x81 && s[2] == n
            &&& n >= 0x100 ==> s.len() == n + 4 && s[1] == 0x82 && s[2] * 256 + s[3] == n
            &&& s.subrange(s.len() - n, s.len() as int) == content
            &&& key_ops::point_bytes(s) == Ok::<Seq<u8>, Seq<char>>(content)
        }),
{
    let n = content.len();
    let s = key_ops::octet_string(content);
    assert(s.subrange(s.len() - n, s.len() as int) =~= content);
    let other = seq![0x02u8];
    assert(!key_ops::is_octet_string(other));
    key_ops::law_point_round_trip(content, other);
}

/// There is no point in no bytes, nor in an OCTET STRING that ends too early.
pub proof fn law_broken_points_are_refused(input: Seq<u8>)
    ensures
        input.len() == 0 ==> key_ops::point_bytes(input) is Err,
        input.len() >= 2 && input.len() != 65 && input[0] == 0x04 && input[1] < 0x80 && input.len()
            < 2 + input[1] ==> key_ops::point_bytes(input) is Err,
        input.len() >= 2 && input.len() != 65 && input[0] == 0x04 && input[1] == 0x80
            ==> key_ops::point_bytes(input) is Err,
        input.len() >= 2 && input.len() != 65 && input[0] == 0x04 && input[1] > 0x82
            ==> key_ops::point_bytes(input) is Err,
        backend::public_key_of(input) matches Err(e) ==> e is MetadataError,
{
}

} // verus!
