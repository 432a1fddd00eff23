//! Keys on the token.
use crate::backend;
use crate::backend::VendorIds;
use crate::bip32::{ChildNumber, XpubView};
use crate::error::{HsmBackendErrorView, Pkcs11ErrorView};
use crate::key_ops;
use crate::key_ops::LoadedKey;
use crate::laws::stored;
use crate::program::{MasterKeyView, ReplyView};
use crate::signer;
use crate::signer::{ProfileView, SignerView};
use crate::store;
use crate::token::{AttributeView, ObjectClass, ObjectHandle};
use crate::world;
use crate::world::{Objects, World};
use vstd::prelude::*;

verus! {

/// The attributes that single out a signer's private key.
pub open spec fn private_query(label: Seq<char>) -> Seq<AttributeView> {
    store::query(ObjectClass::PrivateKey, key_ops::namespaced(label, key_ops::PRIV_SUFFIX@))
}

/// The attributes that single out a signer's public key.
pub open spec fn public_query(label: Seq<char>) -> Seq<AttributeView> {
    store::query(ObjectClass::PublicKey, key_ops::namespaced(label, key_ops::PUB_SUFFIX@))
}

/// What a search for objects and their destruction come to.
proof fn lemma_clear(
    w: World,
    template: Seq<AttributeView>,
    handles: Seq<ObjectHandle>,
    before: Objects,
    out: Result<(), Pkcs11ErrorView>,
    after: Objects,
)
    requires
        world::found(before, template, handles),
        w.runs(store::destroy_all(handles), before, out, after),
    ensures
        out is Err ==> w.may_refuse,
        out is Ok ==> after == world::without(before, template),
{
    assert forall|h: ObjectHandle| #[trigger] handles.contains(h) implies before.dom().contains(
        h,
    ) by {}
    stored::lemma_destroy_all(w, handles, before, out, after);
    stored::lemma_remove_found(before, template, handles);
}

/// Deleting a key removes every private and every public key object of the
/// signer, and nothing else, unless the token refuses something.
pub proof fn law_delete_removes_the_key(
    w: World,
    label: Seq<char>,
    before: Objects,
    out: Result<(), Pkcs11ErrorView>,
    after: Objects,
)
    requires
        w.runs(key_ops::delete_both(label), before, out, after),
    ensures
        out is Err ==> w.may_refuse,
        out is Ok ==> after == world::without(
            world::without(before, private_query(label)),
            public_query(label),
        ),
{
    let (r, mid) = world::lemma_step(w, key_ops::delete_both(label), before, out, after);
    if let ReplyView::Handles(Ok(handles)) = r {
        let (d, cleared) = world::lemma_runs_bind(
            w,
            store::destroy_all(handles),
            key_ops::then_delete_public(label),
            mid,
            out,
            after,
        );
        lemma_clear(w, private_query(label), handles, mid, d, cleared);
        if d is Ok {
            let (r2, mid2) = world::lemma_step(
                w,
                key_ops::delete_public(label),
                cleared,
                out,
                after,
            );
            if let ReplyView::Handles(Ok(list)) = r2 {
                lemma_clear(w, public_query(label), list, mid2, out, after);
            }
        }
    }
}

/// What a lookup finds: nothing, the one key, or an error where there are more,
/// unless the token refuses to search. The token stays as it is.
pub proof fn law_find_tells_the_key(
    w: World,
    label: Seq<char>,
    before: Objects,
    out: Result<Option<LoadedKey>, Pkcs11ErrorView>,
    after: Objects,
)
    requires
        w.runs(key_ops::find_key(label), before, out, after),
    ensures
        after == before,
        out is Ok || !w.may_refuse ==> {
            &&& out == Ok::<Option<LoadedKey>, Pkcs11ErrorView>(None) <==> world::none_holds(
                before,
                private_query(label),
            )
            &&& forall|h: ObjectHandle|
                out == Ok::<Option<LoadedKey>, Pkcs11ErrorView>(
                    Some(LoadedKey { private_key: h }),
                ) <==> #[trigger] world::only(before, private_query(label), h)
        },
{
    let query = private_query(label);
    let (r, mid) = world::lemma_step(w, key_ops::find_key(label), before, out, after);
    if let ReplyView::Handles(Ok(handles)) = r {
        assert forall|h: ObjectHandle| #[trigger] world::holds(before, h, query) <==> handles.contains(
            h,
        ) by {
            assert(handles.contains(h) <==> world::holds(before, h, query));
        }
        if handles.len() == 0 {
            assert(world::none_holds(before, query));
            assert forall|h: ObjectHandle| !#[trigger] world::only(before, query, h) by {
                if world::only(before, query, h) {
                    assert(world::holds(before, h, query));
                }
            }
        } else {
            assert(handles.contains(handles[0]));
            assert(world::holds(before, handles[0], query));
            assert forall|h: ObjectHandle| #[trigger] world::only(before, query, h) implies handles
                =~= seq![h] by {
                assert(world::holds(before, h, query));
                assert(handles[0] == h);
                if handles.len() > 1 {
                    assert(handles.contains(handles[1]));
                    assert(world::holds(before, handles[1], query));
                }
            }
            if handles.len() == 1 {
                assert(world::only(before, query, handles[0]));
            }
        }
    }
}

/// A deleted key is not found any more.
pub proof fn law_deleted_is_not_found(
    w: World,
    label: Seq<char>,
    before: Objects,
    deleted: Objects,
    out: Result<Option<LoadedKey>, Pkcs11ErrorView>,
    after: Objects,
)
    requires
        w.runs(key_ops::delete_both(label), before, Ok(()), deleted),
        w.runs(key_ops::find_key(label), deleted, out, after),
    ensures
        out == Ok::<Option<LoadedKey>, Pkcs11ErrorView>(None) || (w.may_refuse && out is Err),
{
    law_delete_removes_the_key(w, label, before, Ok(()), deleted);
    law_find_tells_the_key(w, label, deleted, out, after);
    assert(world::none_holds(deleted, private_query(label)));
}

/// Whether the attributes say that a key's value cannot be read out of the
/// token.
pub open spec fn stays(template: Seq<AttributeView>) -> bool {
    template.contains(AttributeView::Sensitive(true)) && template.contains(
        AttributeView::Extractable(false),
    )
}

/// No key that the library has made can be read out of the token: not a master
/// key, not a child of it, and not the passing key that carries a seed.
pub proof fn law_keys_stay_on_the_token(label: Seq<char>, seed: Seq<u8>)
    ensures
        stays(backend::master_key(label)),
        stays(backend::child_key()),
        stays(backend::seed_secret(seed)),
{
    let m = backend::master_key(label);
    assert(m.contains(m[4]) && m.contains(m[5]));
    let c = backend::child_key();
    assert(c.contains(c[4]) && c.contains(c[5]));
    let s = backend::seed_secret(seed);
    assert(s.contains(s[4]) && s.contains(s[5]));
}

proof fn lemma_xpub_reading(
    w: World,
    ids: VendorIds,
    key: ObjectHandle,
    before: Objects,
    out: Result<XpubView, HsmBackendErrorView>,
    after: Objects,
)
    requires
        w.runs(backend::xpub_reading(ids, key), before, out, after),
    ensures
        after == before,
{
    let (r, mid) = world::lemma_step(w, backend::xpub_reading(ids, key), before, out, after);
}

proof fn lemma_fingerprint_reading(
    w: World,
    key: ObjectHandle,
    before: Objects,
    out: Result<Seq<u8>, HsmBackendErrorView>,
    after: Objects,
)
    requires
        w.runs(backend::fingerprint_reading(key), before, out, after),
    ensures
        after == before,
{
    let (r, mid) = world::lemma_step(w, backend::fingerprint_reading(key), before, out, after);
}

/// A derivation leaves on the token what was there and the new key under its
/// label. The passing key that carries the seed is gone again, unless the token
/// refuses to destroy it.
pub proof fn law_derivation_leaves_the_key(
    w: World,
    ids: VendorIds,
    seed: Seq<u8>,
    label: Seq<char>,
    before: Objects,
    made: MasterKeyView,
    after: Objects,
) -> (passing: ObjectHandle)
    requires
        w.runs(backend::master_derivation(ids, seed, label), before, Ok(made), after),
    ensures
        !before.dom().contains(made.key_handle),
        after.dom().contains(made.key_handle),
        world::matches(after[made.key_handle], backend::master_key(label)),
        passing != made.key_handle,
        !before.dom().contains(passing),
        after == before.insert(made.key_handle, after[made.key_handle]) || (w.may_refuse && after
            == before.insert(passing, backend::seed_secret(backend::seed_block(seed))).insert(
            made.key_handle,
            after[made.key_handle],
        )),
{
    let block = backend::seed_block(seed);
    let out = Ok::<MasterKeyView, HsmBackendErrorView>(made);
    let (r, with_base) = world::lemma_step(
        w,
        backend::master_derivation(ids, seed, label),
        before,
        out,
        after,
    );
    let base = match r {
        ReplyView::Handle(Ok(h)) => h,
        _ => arbitrary(),
    };
    let (r2, with_key) = world::lemma_step(
        w,
        backend::derive_from_base(ids, block, label, base),
        with_base,
        out,
        after,
    );
    let res = match r2 {
        ReplyView::Handle(m) => m,
        _ => arbitrary(),
    };
    let (r3, dropped) = world::lemma_step(
        w,
        backend::drop_base(ids, base, res),
        with_key,
        out,
        after,
    );
    let key = res->Ok_0;
    let (x, mid) = world::lemma_runs_bind(
        w,
        backend::xpub_reading(ids, key),
        backend::then_fingerprint(key),
        dropped,
        out,
        after,
    );
    lemma_xpub_reading(w, ids, key, dropped, x, mid);
    let (f, mid2) = world::lemma_runs_bind(
        w,
        backend::fingerprint_reading(key),
        backend::then_master(key, x->Ok_0),
        mid,
        out,
        after,
    );
    lemma_fingerprint_reading(w, key, mid, f, mid2);
    assert(after == dropped);
    assert(base != key);
    if let ReplyView::Unit(Ok(_)) = r3 {
        assert(after =~= before.insert(key, after[key]));
    }
    base
}

/// A master key that is derived under the label of a signer's private key is the one
/// that is found by the signer's label, if the signer had none before.
pub proof fn law_derived_is_found(
    w: World,
    ids: VendorIds,
    seed: Seq<u8>,
    label: Seq<char>,
    before: Objects,
    made: MasterKeyView,
    derived: Objects,
    out: Result<Option<LoadedKey>, Pkcs11ErrorView>,
    after: Objects,
)
    requires
        world::none_holds(before, private_query(label)),
        w.runs(
            backend::master_derivation(
                ids,
                seed,
                key_ops::namespaced(label, key_ops::PRIV_SUFFIX@),
            ),
            before,
            Ok(made),
            derived,
        ),
        w.runs(key_ops::find_key(label), derived, out, after),
    ensures
        out == Ok::<Option<LoadedKey>, Pkcs11ErrorView>(
            Some(LoadedKey { private_key: made.key_handle }),
        ) || (w.may_refuse && out is Err),
{
    let name = key_ops::namespaced(label, key_ops::PRIV_SUFFIX@);
    let query = private_query(label);
    let template = backend::master_key(name);
    let passing = law_derivation_leaves_the_key(w, ids, seed, name, before, made, derived);
    law_find_tells_the_key(w, label, derived, out, after);
    let h = made.key_handle;
    assert(template[0] == query[0]);
    assert(template[8] == query[1]);
    assert(world::holds(derived, h, query)) by {
        assert forall|i: int| 0 <= i < query.len() implies derived[h].contains(
            #[trigger] query[i],
        ) by {
            if i == 0 {
                assert(derived[h].contains(template[0]));
            } else {
                assert(derived[h].contains(template[8]));
            }
        }
    }
    let secret = backend::seed_secret(backend::seed_block(seed));
    assert(!world::matches(secret, query)) by {
        if world::matches(secret, query) {
            assert(secret.contains(query[0]));
            let i = secret.index_of(query[0]);
            assert(secret[i] == query[0]);
        }
    }
    assert forall|k: ObjectHandle| #[trigger] world::holds(derived, k, query) implies k == h by {
        if k != h {
            assert(!world::holds(before, k, query));
        }
    }
    assert(world::only(derived, query, h));
}

/// A label in the library's namespace is not empty.
proof fn lemma_label_filled(label: Seq<char>, suffix: Seq<char>)
    ensures
        vstd::utf8::encode_utf8(key_ops::namespaced(label, suffix)).len() > 0,
{
    reveal_strlit("emvault/v1");
    reveal_strlit("/");
    let name = key_ops::namespaced(label, suffix);
    assert(name.len() > 0);
    assert(vstd::utf8::encode_scalar(name[0] as u32).len() > 0);
}

/// Where nothing with a label is added and nothing goes, what answers to a class and
/// a label in the library's namespace stays the same.
pub(crate) proof fn lemma_labelled_stay(
    class: ObjectClass,
    label: Seq<char>,
    suffix: Seq<char>,
    before: Objects,
    after: Objects,
)
    requires
        world::all_kept(before, after),
        world::adds_unlabelled(before, after),
    ensures
        forall|h: ObjectHandle|
            #[trigger] world::holds(
                after,
                h,
                store::query(class, key_ops::namespaced(label, suffix)),
            ) <==> world::holds(
                before,
                h,
                store::query(class, key_ops::namespaced(label, suffix)),
            ),
{
    lemma_label_filled(label, suffix);
    let query = store::query(class, key_ops::namespaced(label, suffix));
    assert forall|h: ObjectHandle| #[trigger] world::holds(after, h, query) <==> world::holds(
        before,
        h,
        query,
    ) by {
        if world::holds(after, h, query) && !before.dom().contains(h) {
            assert(after[h].contains(query[1]));
        }
        if before.dom().contains(h) {
            assert(after[h] == before[h]);
        }
    }
}

/// What derives the federation key from a master key comes to.
proof fn lemma_derive_federation(
    w: World,
    profile: ProfileView,
    fingerprint: Seq<u8>,
    master: ObjectHandle,
    before: Objects,
    out: Result<SignerView, Pkcs11ErrorView>,
    after: Objects,
)
    requires
        w.runs(signer::derive_federation(profile, fingerprint, master), before, out, after),
        before.dom().contains(master),
    ensures
        world::all_kept(before, after),
        world::adds_unlabelled(before, after),
        match out {
            Ok(s) => {
                &&& federation_xpub(w, before[master], profile.derivation_path) == Some(s.xpub)
                &&& s == profile.signer(s.key, s.xpub, fingerprint)
            },
            Err(_) => w.may_refuse || federation_xpub(
                w,
                before[master],
                profile.derivation_path,
            ) is None,
        },
{
    let path = profile.derivation_path;
    let (r, mid) = world::lemma_step(
        w,
        signer::derive_federation(profile, fingerprint, master),
        before,
        out,
        after,
    );
    if let ReplyView::Derived(Ok(key)) = r {
        let (r2, mid2) = world::lemma_step(
            w,
            signer::read_federation(profile, fingerprint, key),
            mid,
            out,
            after,
        );
    }
}

/// The extended public key at the end of a path from a key.
pub open spec fn federation_xpub(
    w: World,
    master: Seq<AttributeView>,
    path: Seq<ChildNumber>,
) -> Option<XpubView> {
    if path.len() == 0 {
        (w.xpub_of)(master)
    } else {
        match (w.key_at)(master, path) {
            Some(key) => (w.xpub_of)(key),
            None => None,
        }
    }
}

/// Whether the one object with all the attributes is there still, under whatever
/// handle. A new session sees the keys of the token so.
pub open spec fn carried_over(
    before: Objects,
    after: Objects,
    template: Seq<AttributeView>,
) -> bool {
    forall|h: ObjectHandle| #[trigger]
        world::only(before, template, h) ==> exists|k: ObjectHandle| #[trigger]
            world::only(after, template, k) && after[k] == before[h]
}

/// A signer that is loaded is the one that was derived: it has the same extended
/// public key, the same fingerprint and everything else but the handle of its key,
/// in the same session or another. The load fails only where the token refuses
/// something.
pub proof fn law_loaded_is_the_derived(
    w: World,
    profile: ProfileView,
    seed: Seq<u8>,
    before: Objects,
    first: SignerView,
    derived: Objects,
    later: Objects,
    out: Result<SignerView, Pkcs11ErrorView>,
    after: Objects,
)
    requires
        world::none_holds(before, private_query(profile.label)),
        w.runs(signer::signer_derivation(profile, seed), before, Ok(first), derived),
        carried_over(derived, later, private_query(profile.label)),
        w.runs(signer::signer_loading(profile), later, out, after),
    ensures
        match out {
            Ok(loaded) => {
                &&& loaded.xpub == first.xpub
                &&& loaded.fingerprint == first.fingerprint
                &&& loaded == (SignerView { key: loaded.key, ..first })
            },
            Err(_) => w.may_refuse,
        },
{
    let query = private_query(profile.label);
    let name = key_ops::namespaced(profile.label, key_ops::PRIV_SUFFIX@);
    let template = backend::master_key(name);
    let made = Ok::<SignerView, Pkcs11ErrorView>(first);
    let (r, mid) = world::lemma_step(
        w,
        signer::signer_derivation(profile, seed),
        before,
        made,
        derived,
    );
    if let ReplyView::Master(Ok(master)) = r {
        let h = master.key_handle;
        lemma_derive_federation(w, profile, master.fingerprint, h, mid, made, derived);
        lemma_labelled_stay(
            ObjectClass::PrivateKey,
            profile.label,
            key_ops::PRIV_SUFFIX@,
            mid,
            derived,
        );
        assert(template[0] == query[0] && template[8] == query[1]);
        assert(world::holds(mid, h, query)) by {
            assert forall|i: int| 0 <= i < query.len() implies mid[h].contains(
                #[trigger] query[i],
            ) by {
                if i == 0 {
                    assert(mid[h].contains(template[0]));
                } else {
                    assert(mid[h].contains(template[8]));
                }
            }
        }
        assert(world::only(derived, query, h)) by {
            assert forall|k: ObjectHandle| #[trigger] world::holds(derived, k, query) <==> k == h by {
                assert(world::holds(derived, k, query) <==> world::holds(mid, k, query));
                if k != h && world::holds(mid, k, query) {
                    assert(!world::holds(before, k, query));
                    assert(mid[k].contains(query[0]));
                    if before.dom().contains(k) {
                        assert(mid[k] == before[k]);
                    }
                }
            }
        }
        assert(derived[h] == mid[h]);
        let k = choose|k: ObjectHandle| #[trigger]
            world::only(later, query, k) && later[k] == derived[h];
        assert(world::holds(later, k, query));
        let (d, found) = world::lemma_runs_bind(
            w,
            key_ops::find_key(profile.label),
            signer::then_read_loaded(profile),
            later,
            out,
            after,
        );
        law_find_tells_the_key(w, profile.label, later, d, found);
        if d is Ok || !w.may_refuse {
            assert(d == Ok::<Option<LoadedKey>, Pkcs11ErrorView>(
                Some(LoadedKey { private_key: k }),
            ));
            let (r2, mid2) = world::lemma_step(
                w,
                signer::read_loaded(profile, k),
                later,
                out,
                after,
            );
            if let ReplyView::MasterFingerprint(Ok(f)) = r2 {
                lemma_derive_federation(w, profile, f, k, mid2, out, after);
            }
        }
    }
}

} // verus!
