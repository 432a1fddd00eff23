//! The signers of a fleet.
use crate::bip32;
use crate::bip32::{ChildNumber, Network};
use crate::config::SlotView;
use crate::environment;
use crate::environment::VariableView;
use crate::error::Pkcs11ErrorView;
use crate::fleet;
use crate::fleet::{KeyInitView, MemberView, RegisteredView};
use crate::key_ops;
use crate::key_ops::LoadedKey;
use crate::program::{Prog, ReplyView, RequestView};
use crate::run;
use crate::session;
use crate::signer;
use crate::signer::{ProfileView, SignerOptions, SignerView};
use crate::text;
use crate::token::ObjectHandle;
use vstd::prelude::*;
use vstd::string::*;

verus! {

/// Whether a result, if it is a signer, is one of this profile.
pub open spec fn of_profile(profile: ProfileView) -> spec_fn(
    Result<SignerView, Pkcs11ErrorView>,
) -> bool {
    |r: Result<SignerView, Pkcs11ErrorView>|
        r matches Ok(s) ==> s == profile.signer(s.key, s.xpub, s.fingerprint)
}

/// A signer that is derived or loaded has the label, the path, the network and the
/// options that were asked for, whatever the replies are.
pub proof fn law_signers_fit_their_profile(profile: ProfileView, seed: Seq<u8>)
    ensures
        run::always(signer::signer_derivation(profile, seed), of_profile(profile)),
        run::always(signer::signer_loading(profile), of_profile(profile)),
{
    let good = of_profile(profile);
    assert forall|f: Seq<u8>, key: ObjectHandle| run::always(
        #[trigger] signer::derive_federation(profile, f, key),
        good,
    ) by {
        reveal_with_fuel(run::always, 3);
    }
    reveal_with_fuel(run::always, 2);
    let next = signer::then_read_loaded(profile);
    let anything = |d: Result<Option<LoadedKey>, Pkcs11ErrorView>| true;
    run::lemma_always_all(key_ops::find_key(profile.label), anything);
    assert forall|d: Result<Option<LoadedKey>, Pkcs11ErrorView>| anything(d) implies run::always(
        #[trigger] next(d),
        good,
    ) by {
        if let Ok(Some(loaded)) = d {
            assert(run::always(signer::read_loaded(profile, loaded.private_key), good));
        }
    }
    run::lemma_always_bind(key_ops::find_key(profile.label), next, anything, good);
}

/// Whether this is a signer of the member: with its label, path and network, derived
/// from the member's seed where it has one, and else loaded by its label.
pub open spec fn signer_of_member(
    member: MemberView,
    options: SignerOptions,
    s: SignerView,
) -> bool {
    let profile = fleet::profile_of(member, options);
    &&& s.label == member.label
    &&& s.derivation_path == member.derivation_path
    &&& s.network == member.network
    &&& match member.key_init {
        KeyInitView::DeriveFromSeed(seed) => run::outcome(
            signer::signer_derivation(profile, seed),
            Ok(s),
        ),
        KeyInitView::Load => run::outcome(signer::signer_loading(profile), Ok(s)),
    }
}

/// What making a member's signer comes to, if it goes well, is a signer of the
/// member.
pub proof fn law_member_has_its_signer(member: MemberView, options: SignerOptions, s: SignerView)
    requires
        run::outcome(fleet::member_building(member, options), Ok(s)),
    ensures
        signer_of_member(member, options, s),
{
    let out = Ok::<SignerView, Pkcs11ErrorView>(s);
    let profile = fleet::profile_of(member, options);
    let prog = fleet::member_building(member, options);
    let replies = choose|replies: Seq<ReplyView>| #[trigger]
        run::behind(prog, replies) == Prog::Done(out);
    let opened = run::lemma_outcome_bind(
        session::session_opening(member.library_path, member.slot, member.pin),
        fleet::then_key(member, options),
        replies,
    );
    let rest = (fleet::then_key(member, options))(opened);
    let last = choose|last: Seq<ReplyView>| #[trigger] run::behind(rest, last) == Prog::Done(out);
    match opened {
        Err(e) => {
            assert(false) by {
                reveal_with_fuel(run::behind, 2);
            }
        },
        Ok(_) => {
            match member.key_init {
                KeyInitView::DeriveFromSeed(seed) => {
                    law_signers_fit_their_profile(profile, seed);
                },
                KeyInitView::Load => {
                    law_signers_fit_their_profile(profile, Seq::empty());
                },
            }
            run::lemma_always_behind(rest, of_profile(profile), last);
        },
    }
}

/// Whether the replies are what making the signers of the members, from `first` on,
/// comes to.
pub open spec fn built(
    members: Seq<MemberView>,
    options: Seq<SignerOptions>,
    first: nat,
    replies: Seq<ReplyView>,
) -> bool {
    forall|i: int|
        0 <= i < replies.len() && first + i < members.len() ==> (#[trigger] replies[i] matches
            ReplyView::Built(r) && run::outcome(
            fleet::member_building(members[first + i], options[first + i]),
            r,
        ))
}

proof fn lemma_fleet(
    members: Seq<MemberView>,
    options: Seq<SignerOptions>,
    made: Seq<SignerView>,
    replies: Seq<ReplyView>,
)
    requires
        made.len() <= members.len(),
        options.len() == members.len(),
        forall|i: int|
            0 <= i < made.len() ==> signer_of_member(members[i], options[i], #[trigger] made[i]),
        built(members, options, made.len(), replies),
        run::behind(fleet::fleet_building(members.len(), made), replies) is Done,
    ensures
        match run::behind(fleet::fleet_building(members.len(), made), replies)->Done_0 {
            Ok(signers) => {
                &&& signers.len() == members.len()
                &&& forall|i: int|
                    0 <= i < members.len() ==> signer_of_member(
                        members[i],
                        options[i],
                        #[trigger] signers[i],
                    )
            },
            Err(e) => {
                &&& 0 < replies.len() <= members.len() - made.len()
                &&& replies.last() == ReplyView::Built(Err(e))
                &&& forall|i: int|
                    0 <= i < replies.len() - 1 ==> (#[trigger] replies[i] matches ReplyView::Built(r)
                        && r is Ok)
            },
        },
    decreases replies.len(),
{
    let prog = fleet::fleet_building(members.len(), made);
    if made.len() < members.len() {
        let r = replies[0];
        let rest = replies.drop_first();
        assert(replies.len() > 0);
        assert(run::behind(prog, replies) == run::behind((prog->Ask_1)(r), rest));
        match r {
            ReplyView::Built(Ok(s)) => {
                law_member_has_its_signer(
                    members[made.len() as int],
                    options[made.len() as int],
                    s,
                );
                let more = made.push(s);
                assert(built(members, options, more.len(), rest)) by {
                    assert forall|i: int|
                        0 <= i < rest.len() && more.len() + i < members.len() implies (
                    #[trigger] rest[i] matches ReplyView::Built(r) && run::outcome(
                        fleet::member_building(
                            members[more.len() + i],
                            options[more.len() + i],
                        ),
                        r,
                    )) by {
                        assert(replies[i + 1] == rest[i]);
                    }
                }
                assert((prog->Ask_1)(r) == fleet::fleet_building(members.len(), more));
                lemma_fleet(members, options, more, rest);
                assert forall|i: int| 0 <= i < replies.len() - 1 && run::behind(
                    prog,
                    replies,
                )->Done_0 is Err implies (#[trigger] replies[i] matches ReplyView::Built(r)
                    && r is Ok) by {
                    if i > 0 {
                        assert(rest[i - 1] == replies[i]);
                    }
                }
                if run::behind(prog, replies)->Done_0 is Err {
                    assert(rest.last() == replies.last());
                }
            },
            ReplyView::Built(Err(e)) => {
                assert((prog->Ask_1)(r) == Prog::<
                    Result<Seq<SignerView>, Pkcs11ErrorView>,
                >::Done(Err(e)));
                assert(rest.len() == 0);
                assert(replies.last() == r);
            },
            _ => {},
        }
    } else {
        assert(replies.len() == 0);
    }
}

/// The signers of a fleet are those of its members, one for each in their order:
/// with the member's label and path, derived or loaded as the member says. Where
/// there are none, the error is that of the first member that fails, and all before
/// it went well.
pub proof fn law_fleet_has_its_signers(
    members: Seq<MemberView>,
    options: Seq<SignerOptions>,
    replies: Seq<ReplyView>,
)
    requires
        options.len() == members.len(),
        built(members, options, 0, replies),
        run::behind(fleet::fleet_building(members.len(), Seq::empty()), replies) is Done,
    ensures
        match run::behind(
            fleet::fleet_building(members.len(), Seq::empty()),
            replies,
        )->Done_0 {
            Ok(signers) => {
                &&& signers.len() == members.len()
                &&& forall|i: int|
                    0 <= i < members.len() ==> signer_of_member(
                        members[i],
                        options[i],
                        #[trigger] signers[i],
                    )
            },
            Err(e) => {
                &&& 0 < replies.len() <= members.len()
                &&& replies.last() == ReplyView::Built(Err(e))
                &&& forall|i: int|
                    0 <= i < replies.len() - 1 ==> (#[trigger] replies[i] matches ReplyView::Built(r)
                        && r is Ok)
            },
        },
{
    lemma_fleet(members, options, Seq::empty(), replies);
}

// ---------------------------------------------------------------------------
// What the environment says
// ---------------------------------------------------------------------------

/// Whether the variable is set to this, which is not empty, at its first place.
pub open spec fn is_set(env: Seq<VariableView>, name: Seq<char>, value: Seq<char>) -> bool {
    value.len() > 0 && exists|k: int|
        0 <= k < env.len() && (#[trigger] env[k]).name == name && env[k].value == value && forall|
            j: int,
        |
            0 <= j < k ==> (#[trigger] env[j]).name != name
}

/// A variable has the value of its first place. An empty one is as good as none.
pub proof fn law_variable_is_its_first_place(env: Seq<VariableView>, name: Seq<char>)
    ensures
        forall|v: Seq<char>|
            environment::lookup_filled(env, name) == Some(v) <==> #[trigger] is_set(env, name, v),
{
    lemma_lookup(env, name);
    assert forall|v: Seq<char>|
        environment::lookup_filled(env, name) == Some(v) <==> #[trigger] is_set(env, name, v) by {
        if is_set(env, name, v) {
            let k = choose|k: int|
                0 <= k < env.len() && (#[trigger] env[k]).name == name && env[k].value == v
                    && forall|j: int| 0 <= j < k ==> (#[trigger] env[j]).name != name;
            lemma_lookup_at(env, name, k);
        }
    }
}

proof fn lemma_lookup(env: Seq<VariableView>, name: Seq<char>)
    ensures
        match environment::lookup(env, name) {
            Some(v) => exists|k: int|
                0 <= k < env.len() && (#[trigger] env[k]).name == name && env[k].value == v
                    && forall|j: int| 0 <= j < k ==> (#[trigger] env[j]).name != name,
            None => forall|k: int| 0 <= k < env.len() ==> (#[trigger] env[k]).name != name,
        },
    decreases env.len(),
{
    if env.len() != 0 {
        if env[0].name == name {
            assert(env[0].value == environment::lookup(env, name)->Some_0);
        } else {
            let rest = env.drop_first();
            lemma_lookup(rest, name);
            match environment::lookup(rest, name) {
                Some(v) => {
                    let k = choose|k: int|
                        0 <= k < rest.len() && (#[trigger] rest[k]).name == name && rest[k].value
                            == v && forall|j: int|
                            0 <= j < k ==> (#[trigger] rest[j]).name != name;
                    assert forall|j: int| 0 <= j < k + 1 implies (#[trigger] env[j]).name
                        != name by {
                        if j > 0 {
                            assert(rest[j - 1] == env[j]);
                        }
                    }
                    assert(env[k + 1] == rest[k]);
                },
                None => {
                    assert forall|k: int| 0 <= k < env.len() implies (#[trigger] env[k]).name
                        != name by {
                        if k > 0 {
                            assert(rest[k - 1] == env[k]);
                        }
                    }
                },
            }
        }
    }
}

proof fn lemma_lookup_at(env: Seq<VariableView>, name: Seq<char>, k: int)
    requires
        0 <= k < env.len(),
        env[k].name == name,
        forall|j: int| 0 <= j < k ==> (#[trigger] env[j]).name != name,
    ensures
        environment::lookup(env, name) == Some(env[k].value),
    decreases env.len(),
{
    if k > 0 {
        let rest = env.drop_first();
        assert(env[0].name != name);
        assert forall|j: int| 0 <= j < k - 1 implies (#[trigger] rest[j]).name != name by {
            assert(env[j + 1] == rest[j]);
        }
        lemma_lookup_at(rest, name, k - 1);
    }
}

/// The name of a variable of the member at `i`.
pub open spec fn name_of(i: nat, field: Seq<char>) -> Seq<char> {
    "EMVAULT_FLEET_"@ + text::decimal(i) + "_"@ + field
}

/// A member is what its variables say: its label, library and PIN are the values of
/// those variables, its path is what the text of its path writes, its slot is the one
/// with the label that is named, or else the one with the number, and it comes by its
/// key as is told, by the seed that the backend has if nothing is told.
pub proof fn law_member_is_what_is_said(
    env: Seq<VariableView>,
    network: Network,
    i: nat,
    vendor: Seq<char>,
)
    ensures
        fleet::member_value(env, network, i, vendor) matches Ok(m) ==> {
            &&& m.vendor == vendor
            &&& m.network == network
            &&& is_set(env, name_of(i, "LABEL"@), m.label)
            &&& is_set(env, name_of(i, "LIB"@), m.library_path)
            &&& is_set(env, name_of(i, "PIN"@), m.pin)
            &&& exists|t: Seq<char>| #[trigger]
                is_set(env, name_of(i, "PATH"@), t) && bip32::path_value(t) == Ok::<
                    Seq<ChildNumber>,
                    Seq<char>,
                >(m.derivation_path)
            &&& match m.slot {
                SlotView::Label(l) => is_set(env, name_of(i, "SLOT"@), l),
                SlotView::SlotId(n) => {
                    &&& forall|l: Seq<char>| !#[trigger] is_set(env, name_of(i, "SLOT"@), l)
                    &&& exists|t: Seq<char>| #[trigger]
                        is_set(env, name_of(i, "SLOT_ID"@), t) && text::number_value(t, 10)
                            == Some(n as nat)
                },
            }
            &&& forall|t: Seq<char>| #[trigger]
                is_set(env, name_of(i, "KEY"@), t) ==> fleet::key_init_value(t, i) == Ok::<
                    KeyInitView,
                    Pkcs11ErrorView,
                >(m.key_init)
            &&& (forall|t: Seq<char>| !#[trigger] is_set(env, name_of(i, "KEY"@), t))
                ==> fleet::key_init_value("shim"@, i) == Ok::<KeyInitView, Pkcs11ErrorView>(
                m.key_init,
            )
        },
        (fleet::member_value(env, network, i, vendor) matches Err(e) && e is InvalidConfig)
            || fleet::member_value(env, network, i, vendor) is Ok,
{
    law_variable_is_its_first_place(env, name_of(i, "LABEL"@));
    law_variable_is_its_first_place(env, name_of(i, "LIB"@));
    law_variable_is_its_first_place(env, name_of(i, "PIN"@));
    law_variable_is_its_first_place(env, name_of(i, "PATH"@));
    law_variable_is_its_first_place(env, name_of(i, "SLOT"@));
    law_variable_is_its_first_place(env, name_of(i, "SLOT_ID"@));
    law_variable_is_its_first_place(env, name_of(i, "KEY"@));
    if let Ok(m) = fleet::member_value(env, network, i, vendor) {
        let path = environment::lookup_filled(env, name_of(i, "PATH"@))->Some_0;
        assert(is_set(env, name_of(i, "PATH"@), path));
        let key = environment::lookup_filled(env, name_of(i, "KEY"@));
        if let Some(t) = key {
            assert(is_set(env, name_of(i, "KEY"@), t));
        }
        if let SlotView::SlotId(n) = m.slot {
            let t = environment::lookup_filled(env, name_of(i, "SLOT_ID"@))->Some_0;
            assert(is_set(env, name_of(i, "SLOT_ID"@), t));
        }
    }
}

/// A member has a vendor just where that variable is set. What a member with a vendor
/// lacks is told by the name of its variable: the first that is missing, in the order
/// of label, library, slot, PIN and path.
pub proof fn law_member_lacks_what_is_not_said(
    env: Seq<VariableView>,
    network: Network,
    i: nat,
    vendor: Seq<char>,
)
    ensures
        fleet::member_vendor(env, i) == Some(vendor) <==> is_set(env, name_of(i, "VENDOR"@), vendor),
        ({
            let out = fleet::member_value(env, network, i, vendor);
            let label = environment::lookup_filled(env, name_of(i, "LABEL"@)) is Some;
            let library = environment::lookup_filled(env, name_of(i, "LIB"@)) is Some;
            let slot = environment::lookup_filled(env, name_of(i, "SLOT"@)) is Some;
            let number = environment::lookup_filled(env, name_of(i, "SLOT_ID"@)) is Some;
            let pin = environment::lookup_filled(env, name_of(i, "PIN"@)) is Some;
            let path = environment::lookup_filled(env, name_of(i, "PATH"@)) is Some;
            &&& !label ==> out == lacking(name_of(i, "LABEL"@))
            &&& label && !library ==> out == lacking(name_of(i, "LIB"@))
            &&& label && library && !slot && !number ==> out == Err::<MemberView, Pkcs11ErrorView>(
                Pkcs11ErrorView::InvalidConfig(
                    name_of(i, "SLOT"@) + ": need _SLOT (label) or _SLOT_ID (numeric)"@,
                ),
            )
            &&& label && library && slot && !pin ==> out == lacking(name_of(i, "PIN"@))
            &&& label && library && slot && pin && !path ==> out == lacking(name_of(i, "PATH"@))
        }),
{
    law_variable_is_its_first_place(env, name_of(i, "VENDOR"@));
}

/// What is told of a variable that has to be set.
pub open spec fn lacking(name: Seq<char>) -> Result<MemberView, Pkcs11ErrorView> {
    Err(Pkcs11ErrorView::InvalidConfig("missing "@ + name))
}

/// How a member comes by its key: `load`, in any case, finds it on the token; `shim`
/// or nothing derives it from the seed that the backend has; and `seed:` with bytes in
/// hexadecimal derives it from these. White space at the ends is of no account, and
/// nothing else is taken.
pub proof fn law_key_text_is_read(s: Seq<char>, i: nat)
    ensures
        ({
            let t = text::trimmed(s);
            let out = fleet::key_init_value(s, i);
            &&& text::ascii_lower(t) == "load"@ ==> out == Ok::<KeyInitView, Pkcs11ErrorView>(
                KeyInitView::Load,
            )
            &&& t.len() == 0 || text::ascii_lower(t) == "shim"@ ==> out == Ok::<
                KeyInitView,
                Pkcs11ErrorView,
            >(KeyInitView::DeriveFromSeed(Seq::empty()))
            &&& forall|h: Seq<char>|
                t == "seed:"@ + h && #[trigger] fleet::hex_bytes(h) is Ok ==> out == Ok::<
                    KeyInitView,
                    Pkcs11ErrorView,
                >(KeyInitView::DeriveFromSeed(fleet::hex_bytes(h)->Ok_0))
            &&& out is Ok && text::ascii_lower(t) != "load"@ && text::ascii_lower(t) != "shim"@
                && t.len() > 0 ==> exists|h: Seq<char>|
                t == "seed:"@ + h && #[trigger] fleet::hex_bytes(h) is Ok
        }),
{
    let t = text::trimmed(s);
    reveal_strlit("load");
    reveal_strlit("shim");
    reveal_strlit("seed:");
    assert(text::ascii_lower("load"@) =~= "load"@);
    assert(text::ascii_lower("shim"@) =~= "shim"@);
    if text::ascii_lower(t) == "load"@ {
        assert(text::ascii_lower(t).len() == 4);
    }
    if t.len() == 0 {
        assert(text::ascii_lower(t).len() == 0);
    }
    if text::ascii_lower(t) == "shim"@ {
        assert(text::ascii_lower(t)[0] == 's');
        assert("load"@[0] == 'l');
    }
    assert forall|h: Seq<char>|
        t == "seed:"@ + h && #[trigger] fleet::hex_bytes(h) is Ok implies fleet::key_init_value(
        s,
        i,
    ) == Ok::<KeyInitView, Pkcs11ErrorView>(
        KeyInitView::DeriveFromSeed(fleet::hex_bytes(h)->Ok_0),
    ) by {
        assert(text::ascii_lower(t).len() == t.len());
        assert("seed:"@.is_prefix_of(t));
        assert(t.skip(5) =~= h);
    }
    if let Some(h) = text::behind_prefix(t, "seed:"@) {
        assert(t =~= "seed:"@ + h);
    }
}

/// A network is named by its own name, the main one also by `mainnet`, in any case and
/// with white space at the ends of no account. A fleet that names none is for testnet.
pub proof fn law_network_is_named(s: Seq<char>, env: Seq<VariableView>)
    ensures
        ({
            let t = text::ascii_lower(text::trimmed(s));
            let out = fleet::network_value(s);
            &&& t == "bitcoin"@ || t == "mainnet"@ <==> out == Ok::<Network, Pkcs11ErrorView>(
                Network::Bitcoin,
            )
            &&& t == "testnet"@ <==> out == Ok::<Network, Pkcs11ErrorView>(Network::Testnet)
            &&& t == "signet"@ <==> out == Ok::<Network, Pkcs11ErrorView>(Network::Signet)
            &&& t == "regtest"@ <==> out == Ok::<Network, Pkcs11ErrorView>(Network::Regtest)
            &&& out matches Err(e) ==> e is InvalidConfig
        }),
        is_set(env, "EMVAULT_FLEET_NETWORK"@, s) ==> fleet::fleet_network(env)
            == fleet::network_value(s),
        (forall|v: Seq<char>| !#[trigger] is_set(env, "EMVAULT_FLEET_NETWORK"@, v))
            ==> fleet::fleet_network(env) == fleet::network_value("testnet"@),
{
    reveal_strlit("bitcoin");
    reveal_strlit("mainnet");
    reveal_strlit("testnet");
    reveal_strlit("signet");
    reveal_strlit("regtest");
    law_variable_is_its_first_place(env, "EMVAULT_FLEET_NETWORK"@);
    assert("bitcoin"@[0] == 'b' && "mainnet"@[0] == 'm' && "testnet"@[0] == 't');
    assert("signet"@[0] == 's' && "regtest"@[0] == 'r');
    let found = environment::lookup_filled(env, "EMVAULT_FLEET_NETWORK"@);
    if let Some(v) = found {
        assert(is_set(env, "EMVAULT_FLEET_NETWORK"@, v));
    }
}

/// The registrar of a vendor is the first with its tag.
pub proof fn law_registrar_is_the_first<R>(
    registry: Seq<RegisteredView<R>>,
    vendor: Seq<char>,
    k: int,
)
    requires
        0 <= k <= registry.len(),
        forall|j: int| 0 <= j < k ==> (#[trigger] registry[j]).vendor != vendor,
        k < registry.len() ==> registry[k].vendor == vendor,
    ensures
        k < registry.len() ==> fleet::registrar_of(registry, vendor) == Some(registry[k].registrar),
        k == registry.len() ==> fleet::registrar_of(registry, vendor) is None,
    decreases registry.len(),
{
    if k > 0 {
        let rest = registry.drop_first();
        assert(registry[0].vendor != vendor);
        assert forall|j: int| 0 <= j < k - 1 implies (#[trigger] rest[j]).vendor != vendor by {
            assert(registry[j + 1] == rest[j]);
        }
        law_registrar_is_the_first(rest, vendor, k - 1);
    }
}

/// Two cosigners have the same key just where they name the same vendor, library, slot
/// and path. Their labels, PINs and seeds make no difference.
pub proof fn law_same_place_is_same_key(
    a: MemberView,
    b: MemberView,
    label: Seq<char>,
    pin: Seq<char>,
    key: KeyInitView,
)
    ensures
        fleet::same_key(a, a),
        fleet::same_key(a, b) == fleet::same_key(b, a),
        fleet::same_key(a, b) ==> a.vendor == b.vendor && a.library_path == b.library_path && a.slot
            == b.slot && a.derivation_path == b.derivation_path,
        fleet::same_key(a, MemberView { label, pin, key_init: key, ..a }),
{
}

// ---------------------------------------------------------------------------
// The signer of a member
// ---------------------------------------------------------------------------

/// A member's session is opened with its own library, slot and PIN, and then its
/// signer is derived from its own seed, or loaded, with its own label, path and
/// network.
pub proof fn law_member_is_built_from_its_own(
    member: MemberView,
    options: SignerOptions,
    opened: Seq<ReplyView>,
    slot: u64,
    e: Pkcs11ErrorView,
)
    ensures
        ({
            let opening = session::session_opening(member.library_path, member.slot, member.pin);
            let prog = fleet::member_building(member, options);
            let profile = ProfileView {
                label: member.label,
                derivation_path: member.derivation_path,
                network: member.network,
                options,
            };
            &&& prog is Ask
            &&& prog->Ask_0 == RequestView::LoadLibrary(member.library_path)
            &&& run::behind(opening, opened) == Prog::<Result<u64, Pkcs11ErrorView>>::Done(
                Ok(slot),
            ) ==> run::behind(prog, opened) == (match member.key_init {
                KeyInitView::DeriveFromSeed(seed) => signer::signer_derivation(profile, seed),
                KeyInitView::Load => signer::signer_loading(profile),
            })
            &&& run::behind(opening, opened) == Prog::<Result<u64, Pkcs11ErrorView>>::Done(
                Err(e),
            ) ==> run::behind(prog, opened) == Prog::<Result<SignerView, Pkcs11ErrorView>>::Done(
                Err(e),
            )
        }),
{
    let opening = session::session_opening(member.library_path, member.slot, member.pin);
    if run::behind(opening, opened) is Done {
        run::lemma_behind_bind(opening, fleet::then_key(member, options), opened);
    }
}

/// The members of a fleet are asked for one after another, from the first on.
pub proof fn law_members_are_built_in_turn(count: nat, made: Seq<SignerView>, s: SignerView)
    ensures
        made.len() < count ==> {
            let prog = fleet::fleet_building(count, made);
            &&& prog is Ask
            &&& prog->Ask_0 == RequestView::BuildMember(made.len())
            &&& (prog->Ask_1)(ReplyView::Built(Ok(s))) == fleet::fleet_building(
                count,
                made.push(s),
            )
        },
        made.len() == count ==> fleet::fleet_building(count, made) == Prog::<
            Result<Seq<SignerView>, Pkcs11ErrorView>,
        >::Done(Ok(made)),
{
}

} // verus!
