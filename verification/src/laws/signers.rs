//! What a signer is made of.
use crate::bip32;
use crate::bip32::{ChildNumber, Network, NetworkKind, XpubView};
use crate::derivation;
use crate::derivation::{DescriptorKeyView, SignerContextView, Wildcard};
use crate::ecdsa;
use crate::error::{HsmBackendErrorView, Pkcs11ErrorView};
use crate::key_ops;
use crate::laws::covered;
use crate::laws::texts;
use crate::program::{MasterKeyView, Prog, ReplyView, RequestView};
use crate::run;
use crate::signer;
use crate::signer::{ElementsNetworkId, NetworkType, ProfileView, SignerView, TransportType};
use crate::text;
use crate::token::{AttributeView, MechanismType, ObjectClass, ObjectHandle, TokenErrorView};
use vstd::prelude::*;
use vstd::string::*;

verus! {

// ---------------------------------------------------------------------------
// Deriving and loading
// ---------------------------------------------------------------------------

/// Whether the signer has this profile and this key.
pub open spec fn is_signer(
    profile: ProfileView,
    key: ObjectHandle,
    xpub: XpubView,
    fingerprint: Seq<u8>,
    s: SignerView,
) -> bool {
    &&& s.label == profile.label
    &&& s.derivation_path == profile.derivation_path
    &&& s.network == profile.network
    &&& s.elements == profile.options.elements
    &&& s.capabilities.blind_signing == profile.options.elements
    &&& s.capabilities.taproot == profile.options.taproot
    &&& !s.capabilities.musig2
    &&& s.capabilities.transports == seq![TransportType::Pkcs11]
    &&& s.key == key
    &&& s.xpub == xpub
    &&& s.fingerprint == fingerprint
    &&& is_id_of(s.id, fingerprint)
    &&& is_federation_key(s.descriptor_key, xpub, fingerprint, profile.derivation_path)
}

/// Whether the id is the fingerprint in hexadecimal: two digits for each byte, the
/// high one first, in lower case.
pub open spec fn is_id_of(id: Seq<char>, fingerprint: Seq<u8>) -> bool {
    &&& id.len() == 2 * fingerprint.len()
    &&& forall|k: int|
        #![trigger fingerprint[k]]
        0 <= k < fingerprint.len() ==> text::digit_value(id[2 * k], 16) == Some(
            (fingerprint[k] / 16) as nat,
        ) && text::digit_value(id[2 * k + 1], 16) == Some((fingerprint[k] % 16) as nat)
    &&& forall|i: int| 0 <= i < id.len() ==> !('A' <= #[trigger] id[i] && id[i] <= 'Z')
}

/// Whether the descriptor key is the normal children of the normal child zero of the
/// extended key, which comes from the master key with this fingerprint by this path.
pub open spec fn is_federation_key(
    key: DescriptorKeyView,
    xpub: XpubView,
    fingerprint: Seq<u8>,
    path: Seq<ChildNumber>,
) -> bool {
    key matches DescriptorKeyView::XPub { origin, xkey, derivation_path, wildcard } && {
        &&& origin.fingerprint == fingerprint
        &&& origin.path == path
        &&& xkey == xpub
        &&& derivation_path.len() == 1
        &&& derivation_path[0] == ChildNumber::Normal { index: 0 }
        &&& wildcard == Wildcard::Unhardened
    }
}

/// The label of a signer's private key on the token.
pub open spec fn private_label(label: Seq<char>) -> Seq<char> {
    "emvault/v1/"@ + label + "/priv"@
}

proof fn lemma_private_label(label: Seq<char>)
    ensures
        key_ops::namespaced(label, key_ops::PRIV_SUFFIX@) == private_label(label),
{
    reveal_strlit("emvault/v1/");
    reveal_strlit("emvault/v1");
    reveal_strlit("/priv");
    reveal_strlit("priv");
    reveal_strlit("/");
    assert(key_ops::namespaced(label, key_ops::PRIV_SUFFIX@) =~= private_label(label));
}

proof fn lemma_is_signer(
    profile: ProfileView,
    key: ObjectHandle,
    xpub: XpubView,
    fingerprint: Seq<u8>,
)
    ensures
        is_signer(profile, key, xpub, fingerprint, profile.signer(key, xpub, fingerprint)),
{
    texts::law_hex_reads_back(fingerprint);
}

/// A signer is derived in three steps: the master key from the seed under the label
/// of the signer's private key, the federation key from the master key along the
/// path, and the extended public key of the federation key. It has the profile that
/// was asked for, the federation key, and the fingerprint of the master key.
pub proof fn law_signer_is_derived(
    profile: ProfileView,
    seed: Seq<u8>,
    master: MasterKeyView,
    key: ObjectHandle,
    xpub: XpubView,
)
    ensures
        ({
            let prog = signer::signer_derivation(profile, seed);
            let replies = seq![
                ReplyView::Master(Ok(master)),
                ReplyView::Derived(Ok(key)),
                ReplyView::Xpub(Ok(xpub)),
            ];
            let end = run::behind(prog, replies);
            &&& run::asked(prog, replies) == seq![
                RequestView::DeriveMasterKey(seed, private_label(profile.label)),
                RequestView::DerivePath(master.key_handle, profile.derivation_path),
                RequestView::ReadXpub(key),
            ]
            &&& end is Done
            &&& end->Done_0 is Ok
            &&& is_signer(profile, key, xpub, master.fingerprint, end->Done_0->Ok_0)
        }),
{
    let prog = signer::signer_derivation(profile, seed);
    let replies = seq![
        ReplyView::Master(Ok(master)),
        ReplyView::Derived(Ok(key)),
        ReplyView::Xpub(Ok(xpub)),
    ];
    lemma_private_label(profile.label);
    lemma_is_signer(profile, key, xpub, master.fingerprint);
    lemma_federation(profile, master.fingerprint, master.key_handle, key, xpub);
    assert(replies.drop_first() =~= seq![
        ReplyView::Derived(Ok(key)),
        ReplyView::Xpub(Ok(xpub)),
    ]);
    assert((prog->Ask_1)(replies[0]) == signer::derive_federation(
        profile,
        master.fingerprint,
        master.key_handle,
    ));
    assert(run::asked(prog, replies) =~= seq![
        RequestView::DeriveMasterKey(seed, private_label(profile.label)),
        RequestView::DerivePath(master.key_handle, profile.derivation_path),
        RequestView::ReadXpub(key),
    ]);
}

proof fn lemma_federation(
    profile: ProfileView,
    fingerprint: Seq<u8>,
    master: ObjectHandle,
    key: ObjectHandle,
    xpub: XpubView,
)
    ensures
        ({
            let prog = signer::derive_federation(profile, fingerprint, master);
            let replies = seq![ReplyView::Derived(Ok(key)), ReplyView::Xpub(Ok(xpub))];
            &&& run::asked(prog, replies) == seq![
                RequestView::DerivePath(master, profile.derivation_path),
                RequestView::ReadXpub(key),
            ]
            &&& run::behind(prog, replies) == Prog::<Result<SignerView, Pkcs11ErrorView>>::Done(
                Ok(profile.signer(key, xpub, fingerprint)),
            )
        }),
{
    let prog = signer::derive_federation(profile, fingerprint, master);
    let replies = seq![ReplyView::Derived(Ok(key)), ReplyView::Xpub(Ok(xpub))];
    let last = signer::read_federation(profile, fingerprint, key);
    let one = replies.drop_first();
    assert((prog->Ask_1)(replies[0]) == last);
    assert(one.drop_first() =~= Seq::<ReplyView>::empty());
    reveal_with_fuel(run::behind, 3);
    reveal_with_fuel(run::asked, 3);
    assert(run::asked(prog, replies) =~= seq![
        RequestView::DerivePath(master, profile.derivation_path),
        RequestView::ReadXpub(key),
    ]);
}

/// A signer is loaded by its label: the one private key with the label of the
/// signer's private key is its master key, whose fingerprint is read, and from which
/// the federation key is derived along the path again. So it is the signer that was
/// derived under the label.
pub proof fn law_signer_is_loaded(
    profile: ProfileView,
    master: ObjectHandle,
    fingerprint: Seq<u8>,
    key: ObjectHandle,
    xpub: XpubView,
)
    ensures
        ({
            let prog = signer::signer_loading(profile);
            let replies = seq![
                ReplyView::Handles(Ok(seq![master])),
                ReplyView::MasterFingerprint(Ok(fingerprint)),
                ReplyView::Derived(Ok(key)),
                ReplyView::Xpub(Ok(xpub)),
            ];
            let asked = run::asked(prog, replies);
            let end = run::behind(prog, replies);
            &&& asked == seq![
                RequestView::FindObjects(
                    seq![
                        AttributeView::Class(ObjectClass::PrivateKey),
                        AttributeView::Label(
                            vstd::utf8::encode_utf8(private_label(profile.label)),
                        ),
                    ],
                ),
                RequestView::MasterFingerprint(master),
                RequestView::DerivePath(master, profile.derivation_path),
                RequestView::ReadXpub(key),
            ]
            &&& end is Done
            &&& end->Done_0 is Ok
            &&& is_signer(profile, key, xpub, fingerprint, end->Done_0->Ok_0)
        }),
{
    let prog = signer::signer_loading(profile);
    let finding = key_ops::find_key(profile.label);
    let next = signer::then_read_loaded(profile);
    let found = seq![ReplyView::Handles(Ok(seq![master]))];
    let rest = seq![
        ReplyView::MasterFingerprint(Ok(fingerprint)),
        ReplyView::Derived(Ok(key)),
        ReplyView::Xpub(Ok(xpub)),
    ];
    let replies = seq![
        ReplyView::Handles(Ok(seq![master])),
        ReplyView::MasterFingerprint(Ok(fingerprint)),
        ReplyView::Derived(Ok(key)),
        ReplyView::Xpub(Ok(xpub)),
    ];
    lemma_private_label(profile.label);
    lemma_is_signer(profile, key, xpub, fingerprint);
    lemma_federation(profile, fingerprint, master, key, xpub);
    assert(found + rest =~= replies);
    assert(found.drop_first() =~= Seq::<ReplyView>::empty());
    reveal_with_fuel(run::behind, 2);
    reveal_with_fuel(run::asked, 2);
    assert((finding->Ask_1)(found[0]) == Prog::Done(
        Ok::<Option<key_ops::LoadedKey>, Pkcs11ErrorView>(
            Some(key_ops::LoadedKey { private_key: master }),
        ),
    ));
    assert(run::asked(finding, found) =~= seq![finding->Ask_0]);
    run::lemma_behind_both(finding, next, found, rest);
    let reading = signer::read_loaded(profile, master);
    let deriving = signer::derive_federation(profile, fingerprint, master);
    assert((reading->Ask_1)(rest[0]) == deriving);
    let last = seq![ReplyView::Derived(Ok(key)), ReplyView::Xpub(Ok(xpub))];
    assert(rest.drop_first() =~= last);
    assert(run::behind(reading, rest) == run::behind(deriving, last));
    assert(run::asked(reading, rest) == seq![reading->Ask_0] + run::asked(deriving, last));
    assert(run::asked(prog, replies) =~= seq![
        RequestView::FindObjects(
            seq![
                AttributeView::Class(ObjectClass::PrivateKey),
                AttributeView::Label(vstd::utf8::encode_utf8(private_label(profile.label))),
            ],
        ),
        RequestView::MasterFingerprint(master),
        RequestView::DerivePath(master, profile.derivation_path),
        RequestView::ReadXpub(key),
    ]);
}

/// Where there is no private key with the signer's label, there is no signer to load;
/// nor where there are several. Nothing more is asked for.
pub proof fn law_signer_is_loaded_by_one_key(profile: ProfileView, handles: Seq<ObjectHandle>)
    requires
        handles.len() != 1,
    ensures
        ({
            let end = run::behind(
                signer::signer_loading(profile),
                seq![ReplyView::Handles(Ok(handles))],
            );
            &&& end is Done
            &&& end->Done_0 is Err
            &&& handles.len() == 0 ==> end->Done_0->Err_0 == Pkcs11ErrorView::ObjectNotFound(
                "key with label "@ + profile.label,
            )
            &&& handles.len() > 1 ==> end->Done_0->Err_0 == Pkcs11ErrorView::Ambiguous {
                query: private_label(profile.label),
                count: handles.len(),
            }
        }),
{
    let finding = key_ops::find_key(profile.label);
    let next = signer::then_read_loaded(profile);
    let found = seq![ReplyView::Handles(Ok(handles))];
    lemma_private_label(profile.label);
    assert(found.drop_first() =~= Seq::<ReplyView>::empty());
    reveal_with_fuel(run::behind, 2);
    assert((finding->Ask_1)(found[0]) == Prog::Done(key_ops::one_key(profile.label, handles)));
    run::lemma_behind_bind(finding, next, found);
}

// ---------------------------------------------------------------------------
// Signing
// ---------------------------------------------------------------------------

/// A signer signs with its own federation key: the plans see its label, its master
/// fingerprint, its path, its network, and whether its backend signs for Taproot.
pub proof fn law_signer_signs_with_its_key(s: SignerView)
    ensures
        s.signing_key().label == s.label,
        s.signing_key().fingerprint == s.fingerprint,
        s.signing_key().path == s.derivation_path,
        s.signing_key().network == s.network,
        s.signing_key().handle == s.key,
        s.signing_key().taproot == s.capabilities.taproot,
{
}

/// A digest is signed by the token with the key that is named, and comes back in the
/// form that nodes accept. What is no two numbers of thirty-two bytes below the group
/// order is no signature, and a refusal by the token stays one.
pub proof fn law_digest_is_signed(
    key: ObjectHandle,
    digest: Seq<u8>,
    raw: Seq<u8>,
    e: TokenErrorView,
)
    ensures
        ({
            let prog = ecdsa::low_s_signing(key, digest);
            let signed = (prog->Ask_1)(ReplyView::Signature(Ok(raw)));
            &&& prog is Ask
            &&& prog->Ask_0 == RequestView::SignEcdsa(key, digest)
            &&& signed is Done
            &&& signed->Done_0 is Ok <==> raw.len() == 64 && ecdsa::be_value(raw.take(32))
                < ecdsa::group_order() && ecdsa::be_value(raw.skip(32)) < ecdsa::group_order()
            &&& signed->Done_0 matches Ok(sig) ==> covered::is_low_form(raw, sig)
            &&& (prog->Ask_1)(ReplyView::Signature(Err(e))) == Prog::<
                Result<Seq<u8>, Pkcs11ErrorView>,
            >::Done(Err(Pkcs11ErrorView::Pkcs11(e)))
        }),
{
    if ecdsa::valid_compact(raw) {
        ecdsa::law_low_s(raw);
    }
}

/// What bytes write is the sum of each byte times two hundred and fifty-six to the
/// power of how many bytes are behind it: nothing for none, a byte for itself, and
/// what is before a byte counts two hundred and fifty-six times as much.
pub proof fn law_bytes_are_big_endian(bytes: Seq<u8>, byte: u8)
    ensures
        ecdsa::be_value(Seq::empty()) == 0,
        ecdsa::be_value(bytes.push(byte)) == 256 * ecdsa::be_value(bytes) + byte,
{
    assert(bytes.push(byte).drop_last() =~= bytes);
}

// ---------------------------------------------------------------------------
// What a wallet is told
// ---------------------------------------------------------------------------

/// A signer is for its own network; where it signs for Elements, also for the Elements
/// network of the same kind, if there is one. There is none beside signet.
pub proof fn law_networks_go_together(network: Network, elements: bool)
    ensures
        ({
            let list = signer::networks(network, elements);
            &&& list.len() > 0
            &&& list[0] == NetworkType::Bitcoin(network)
            &&& forall|n: Network| #[trigger]
                list.contains(NetworkType::Bitcoin(n)) <==> n == network
            &&& list.contains(NetworkType::Elements(ElementsNetworkId::Liquid)) <==> elements
                && network == Network::Bitcoin
            &&& list.contains(NetworkType::Elements(ElementsNetworkId::LiquidTestnet)) <==> elements
                && network == Network::Testnet
            &&& list.contains(NetworkType::Elements(ElementsNetworkId::ElementsRegtest))
                <==> elements && network == Network::Regtest
        }),
{
    let list = signer::networks(network, elements);
    assert(list[0] == NetworkType::Bitcoin(network));
    assert forall|n: Network| #[trigger] list.contains(NetworkType::Bitcoin(n)) implies n
        == network by {
        let i = list.index_of(NetworkType::Bitcoin(n));
        if i > 0 {
            assert(list[1] is Elements);
        }
    }
    if list.len() > 1 {
        assert(list.contains(list[1]));
    }
}

/// What strategies put into a descriptor is the signer's own: its public key, with
/// the master fingerprint and the path it comes by, alone or as an extended key with
/// its chain code. The extended key has the depth and the last step of that path, and
/// is for test networks; its normal children are meant.
pub proof fn law_strategies_name_the_signers_key(ctx: SignerContextView)
    ensures
        ctx.single_key() matches DescriptorKeyView::Single { origin, key } && {
            &&& origin.fingerprint == ctx.fingerprint
            &&& origin.path == ctx.derivation_path
            &&& key == ctx.public_key
        },
        ctx.extended_key() matches DescriptorKeyView::XPub {
            origin,
            xkey,
            derivation_path,
            wildcard,
        } && {
            &&& origin.fingerprint == ctx.fingerprint
            &&& origin.path == ctx.derivation_path
            &&& xkey.public_key == ctx.public_key
            &&& xkey.chain_code == ctx.chain_code
            &&& xkey.network == NetworkKind::Test
            &&& ctx.derivation_path.len() < 256 ==> xkey.depth == ctx.derivation_path.len()
            &&& ctx.derivation_path.len() > 0 ==> xkey.child_number
                == ctx.derivation_path[ctx.derivation_path.len() - 1]
            &&& xkey.parent_fingerprint == seq![0u8, 0u8, 0u8, 0u8]
            &&& derivation_path.len() == 0
            &&& wildcard == Wildcard::Unhardened
        },
{
}

// ---------------------------------------------------------------------------
// The token's own derivation
// ---------------------------------------------------------------------------

/// What rests on a mechanism of the token is given just where the token lists it.
/// Where it does not, the derivation is not supported, and a refusal by the token
/// stays one.
pub proof fn law_mechanism_has_to_be_listed<A>(
    mechanism: MechanismType,
    out: Result<A, Pkcs11ErrorView>,
    list: Seq<MechanismType>,
    e: TokenErrorView,
)
    ensures
        ({
            let prog = derivation::if_supported(mechanism, out);
            let told = (prog->Ask_1)(ReplyView::Mechanisms(Ok(list)));
            &&& prog is Ask
            &&& prog->Ask_0 == RequestView::MechanismList
            &&& told is Done
            &&& list.contains(mechanism) ==> told->Done_0 == out
            &&& !list.contains(mechanism) ==> (told->Done_0 matches Err(
                Pkcs11ErrorView::DerivationUnsupported { strategy, reason },
            ) && strategy == "HsmNativeBip32"@ && reason == "mechanism "@ + mechanism.debug_view()
                + " not advertised by token"@)
            &&& (prog->Ask_1)(ReplyView::Mechanisms(Err(e))) == Prog::<
                Result<A, Pkcs11ErrorView>,
            >::Done(Err(Pkcs11ErrorView::Pkcs11(e)))
        }),
{
}

/// The reason why the token's own derivation does not sign names the mechanism and
/// the path.
pub proof fn law_native_signing_is_unsupported(mechanism: MechanismType, path: Seq<ChildNumber>)
    ensures
        derivation::not_implemented(mechanism, path) matches Pkcs11ErrorView::DerivationUnsupported {
            strategy,
            reason,
        } && strategy == "HsmNativeBip32"@ && reason
            == "vendor-specific derivation invocation for mechanism "@ + mechanism.debug_view()
            + " at path "@ + bip32::path_text(path)
            + " not implemented in v1; configure FixedKey or supply a custom strategy"@,
{
}

/// What the backend fails with while a signer is derived or loaded is what the signer
/// fails with.
pub proof fn law_signer_tells_what_failed(
    profile: ProfileView,
    seed: Seq<u8>,
    key: ObjectHandle,
    fingerprint: Seq<u8>,
    e: HsmBackendErrorView,
)
    ensures
        ({
            let failed = Prog::<Result<SignerView, Pkcs11ErrorView>>::Done(
                Err(Pkcs11ErrorView::HsmBackend(e)),
            );
            &&& (signer::signer_derivation(profile, seed)->Ask_1)(ReplyView::Master(Err(e)))
                == failed
            &&& (signer::read_loaded(profile, key)->Ask_1)(ReplyView::MasterFingerprint(Err(e)))
                == failed
            &&& (signer::derive_federation(profile, fingerprint, key)->Ask_1)(
                ReplyView::Derived(Err(e)),
            ) == failed
            &&& (signer::read_federation(profile, fingerprint, key)->Ask_1)(
                ReplyView::Xpub(Err(e)),
            ) == failed
        }),
{
}

/// Only the main network is of the main kind. Each network has a name of its own.
pub proof fn law_networks_are_told_apart(network: Network, other: Network)
    ensures
        network.name_view() == other.name_view() ==> network == other,
        Network::Bitcoin.name_view() == "bitcoin"@,
        Network::Testnet.name_view() == "testnet"@,
        Network::Testnet4.name_view() == "testnet4"@,
        Network::Signet.name_view() == "signet"@,
        Network::Regtest.name_view() == "regtest"@,
        network.kind_view() == NetworkKind::Main <==> network == Network::Bitcoin,
        network.kind_view() == NetworkKind::Test <==> network != Network::Bitcoin,
{
    reveal_strlit("bitcoin");
    reveal_strlit("testnet");
    reveal_strlit("testnet4");
    reveal_strlit("signet");
    reveal_strlit("regtest");
    assert("bitcoin"@.len() == 7 && "testnet"@.len() == 7 && "testnet4"@.len() == 8);
    assert("signet"@.len() == 6 && "regtest"@.len() == 7);
    assert("bitcoin"@[0] == 'b' && "testnet"@[0] == 't' && "regtest"@[0] == 'r');
}

} // verus!
