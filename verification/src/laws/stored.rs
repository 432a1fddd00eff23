//! The policy and the counter on the token.
use crate::error::Pkcs11ErrorView;
use crate::key_ops;
use crate::policy;
use crate::policy::PolicyView;
use crate::program::{Prog, ReplyView, RequestView};
use crate::run;
use crate::store;
use crate::text;
use crate::token::{AttributeType, AttributeView, ObjectClass, ObjectHandle};
use crate::world;
use crate::world::{Objects, World};
use vstd::prelude::*;
use vstd::string::*;

verus! {

// ---------------------------------------------------------------------------
// Data objects on the token
// ---------------------------------------------------------------------------

/// What destroying objects that are there comes to.
pub(crate) proof fn lemma_destroy_all(
    w: World,
    handles: Seq<ObjectHandle>,
    before: Objects,
    out: Result<(), Pkcs11ErrorView>,
    after: Objects,
)
    requires
        w.runs(store::destroy_all(handles), before, out, after),
        handles.no_duplicates(),
        forall|h: ObjectHandle| #[trigger] handles.contains(h) ==> before.dom().contains(h),
    ensures
        out is Err ==> w.may_refuse && !w.destroys,
        out is Err && handles.len() == 1 ==> after == before,
        out is Ok ==> after == before.remove_keys(handles.to_set()),
        forall|h: ObjectHandle| #[trigger]
            before.dom().contains(h) && !handles.contains(h) ==> after.dom().contains(h) && after[h]
                == before[h],
    decreases handles.len(),
{
    if handles.len() == 0 {
        assert(before.remove_keys(handles.to_set()) =~= before);
    } else {
        let (r, mid) = world::lemma_step(w, store::destroy_all(handles), before, out, after);
        assert(handles.contains(handles[0]));
        if let ReplyView::Unit(Ok(_)) = r {
            let rest = handles.drop_first();
            assert forall|h: ObjectHandle| #[trigger] rest.contains(h) implies mid.dom().contains(
                h,
            ) by {
                let i = rest.index_of(h);
                assert(rest[i] == handles[i + 1]);
                assert(handles.contains(h));
            }
            lemma_destroy_all(w, rest, mid, out, after);
            assert forall|h: ObjectHandle| handles.contains(h) <==> h == handles[0]
                || #[trigger] rest.contains(h) by {
                if handles.contains(h) && h != handles[0] {
                    let i = handles.index_of(h);
                    assert(rest[i - 1] == h);
                }
                if rest.contains(h) {
                    let i = rest.index_of(h);
                    assert(handles[i + 1] == h);
                }
            }
            assert(mid.remove_keys(rest.to_set()) =~= before.remove_keys(handles.to_set())) by {
                assert forall|h: ObjectHandle| handles.to_set().contains(h) <==> h == handles[0]
                    || rest.to_set().contains(h) by {
                    assert(rest.contains(h) <==> rest.to_set().contains(h));
                }
            }
            assert forall|h: ObjectHandle| #[trigger]
                before.dom().contains(h) && !handles.contains(h) implies after.dom().contains(h)
                && after[h] == before[h] by {
                assert(!rest.contains(h));
                assert(mid.dom().contains(h));
            }
        }
    }
}

/// Removing what a search finds leaves the objects that lack an attribute.
pub(crate) proof fn lemma_remove_found(
    objects: Objects,
    template: Seq<AttributeView>,
    handles: Seq<ObjectHandle>,
)
    requires
        world::found(objects, template, handles),
    ensures
        objects.remove_keys(handles.to_set()) == world::without(objects, template),
{
    assert forall|h: ObjectHandle| #[trigger]
        handles.to_set().contains(h) <==> world::holds(objects, h, template) by {
        assert(handles.contains(h) <==> handles.to_set().contains(h));
    }
    assert(objects.remove_keys(handles.to_set()) =~= world::without(objects, template));
}

/// The request to write something down, and what it is then.
pub open spec fn written(w: World, encode: RequestView) -> Option<Seq<u8>> {
    match encode {
        RequestView::EncodePolicy(p) => Some((w.policy_bytes)(p)),
        RequestView::EncodeSigRate(t) => Some((w.times_bytes)(t)),
        _ => None,
    }
}

/// What writing a new object comes to: the new object behind what was there, or,
/// where the token refuses it, what was there.
proof fn lemma_create(
    w: World,
    label: Seq<char>,
    encode: RequestView,
    before: Objects,
    out: Result<ObjectHandle, Pkcs11ErrorView>,
    after: Objects,
)
    requires
        w.runs(store::encode_and_create(label, encode), before, out, after),
        written(w, encode) is Some,
    ensures
        match out {
            Ok(h) => !before.dom().contains(h) && after == before.insert(
                h,
                store::data_object(label, written(w, encode)->Some_0),
            ),
            Err(_) => w.may_refuse && after == before,
        },
{
    let (r, mid) = world::lemma_step(
        w,
        store::encode_and_create(label, encode),
        before,
        out,
        after,
    );
    let value = written(w, encode)->Some_0;
    let (r2, mid2) = world::lemma_step(w, store::create_data(label, value), mid, out, after);
}

/// What destroying the old objects behind a new one comes to.
proof fn lemma_settle(
    w: World,
    old_ones: Seq<ObjectHandle>,
    new: ObjectHandle,
    start: Objects,
    object: Seq<AttributeView>,
    out: Result<ObjectHandle, Pkcs11ErrorView>,
    after: Objects,
)
    requires
        w.runs(
            store::destroy_all(old_ones).bind(store::then_settle(new)),
            start.insert(new, object),
            out,
            after,
        ),
        !start.dom().contains(new),
        old_ones.no_duplicates(),
        forall|h: ObjectHandle| #[trigger] old_ones.contains(h) ==> start.dom().contains(h),
    ensures
        match out {
            Ok(h) => h == new && after == start.remove_keys(old_ones.to_set()).insert(new, object),
            Err(_) => {
                &&& w.may_refuse && !w.destroys
                &&& old_ones.len() == 1 ==> after == start || after == start.insert(new, object)
            },
        },
        forall|h: ObjectHandle| #[trigger]
            start.dom().contains(h) && !old_ones.contains(h) ==> after.dom().contains(h) && after[h]
                == start[h],
{
    let both = start.insert(new, object);
    let (d, mid) = world::lemma_runs_bind(
        w,
        store::destroy_all(old_ones),
        store::then_settle(new),
        both,
        out,
        after,
    );
    lemma_destroy_all(w, old_ones, both, d, mid);
    match d {
        Ok(_) => {
            assert(!old_ones.to_set().contains(new)) by {
                if old_ones.contains(new) {
                    assert(start.dom().contains(new));
                }
            }
            assert(mid =~= start.remove_keys(old_ones.to_set()).insert(new, object));
        },
        Err(e) => {
            let (r, end) = world::lemma_step(w, store::take_back(new, e), mid, out, after);
            assert(both.remove(new) =~= start);
        },
    }
    assert forall|h: ObjectHandle| #[trigger]
        start.dom().contains(h) && !old_ones.contains(h) implies after.dom().contains(h) && after[h]
        == start[h] by {
        assert(both.dom().contains(h) && both[h] == start[h]);
        assert(mid.dom().contains(h));
    }
}

/// Replacing a data object leaves one data object with that label, which holds
/// the new value, and all that has another class or label as it was. It fails
/// only where the token refuses something, and then too leaves the rest as it
/// was.
pub proof fn law_replace_leaves_one(
    w: World,
    label: Seq<char>,
    encode: RequestView,
    before: Objects,
    out: Result<ObjectHandle, Pkcs11ErrorView>,
    after: Objects,
)
    requires
        w.runs(store::replace_data(label, encode), before, out, after),
        written(w, encode) is Some,
    ensures
        out is Err ==> w.may_refuse,
        match out {
            Ok(h) => {
                let rest = world::without(before, store::query(ObjectClass::Data, label));
                !before.dom().contains(h) && after == rest.insert(
                    h,
                    store::data_object(label, written(w, encode)->Some_0),
                )
            },
            Err(_) => true,
        },
        world::kept(before, after, store::query(ObjectClass::Data, label)),
{
    lemma_replace(w, label, encode, before, out, after);
}

/// Replacing a data object is done as a whole or not at all. Where it fails, and
/// the token destroys what it is told to, the token is as it was: a refusal to
/// create the new object leaves the old one. Where the token refuses even to
/// destroy, the old object is there still, at worst with the new one beside it.
pub proof fn law_replace_is_all_or_nothing(
    w: World,
    label: Seq<char>,
    encode: RequestView,
    before: Objects,
    e: Pkcs11ErrorView,
    after: Objects,
)
    requires
        w.runs(store::replace_data(label, encode), before, Err(e), after),
        written(w, encode) is Some,
    ensures
        w.destroys ==> after == before,
        world::none_holds(before, store::query(ObjectClass::Data, label)) ==> after == before,
        forall|h: ObjectHandle| #[trigger]
            world::only(before, store::query(ObjectClass::Data, label), h) ==> after == before
                || one_more(before, store::data_object(label, written(w, encode)->Some_0), after),
{
    lemma_replace(w, label, encode, before, Err(e), after);
}

/// Whether there is this object more.
pub open spec fn one_more(before: Objects, object: Seq<AttributeView>, after: Objects) -> bool {
    exists|h: ObjectHandle| !before.dom().contains(h) && after == #[trigger] before.insert(h, object)
}

proof fn lemma_replace(
    w: World,
    label: Seq<char>,
    encode: RequestView,
    before: Objects,
    out: Result<ObjectHandle, Pkcs11ErrorView>,
    after: Objects,
)
    requires
        w.runs(store::replace_data(label, encode), before, out, after),
        written(w, encode) is Some,
    ensures
        out is Err ==> w.may_refuse,
        match out {
            Ok(h) => !before.dom().contains(h) && after == world::without(
                before,
                store::query(ObjectClass::Data, label),
            ).insert(h, store::data_object(label, written(w, encode)->Some_0)),
            Err(_) => {
                &&& w.destroys ==> after == before
                &&& world::none_holds(before, store::query(ObjectClass::Data, label)) ==> after
                    == before
                &&& forall|h: ObjectHandle| #[trigger]
                    world::only(before, store::query(ObjectClass::Data, label), h) ==> after
                        == before || one_more(
                        before,
                        store::data_object(label, written(w, encode)->Some_0),
                        after,
                    )
            },
        },
        world::kept(before, after, store::query(ObjectClass::Data, label)),
{
    let query = store::query(ObjectClass::Data, label);
    let object = store::data_object(label, written(w, encode)->Some_0);
    let (r, start) = world::lemma_step(w, store::replace_data(label, encode), before, out, after);
    if let ReplyView::Handles(Ok(handles)) = r {
        assert(start == before);
        let (d, mid) = world::lemma_runs_bind(
            w,
            store::encode_and_create(label, encode),
            store::then_clear(handles),
            before,
            out,
            after,
        );
        lemma_create(w, label, encode, before, d, mid);
        if let Ok(new) = d {
            lemma_settle(w, handles, new, before, object, out, after);
            lemma_remove_found(before, query, handles);
            if world::none_holds(before, query) {
                assert(handles.len() == 0) by {
                    if handles.len() > 0 {
                        assert(handles.contains(handles[0]));
                        assert(world::holds(before, handles[0], query));
                    }
                }
                assert(out is Ok) by {
                    reveal_with_fuel(crate::program::Prog::bind, 2);
                }
            }
            assert forall|h: ObjectHandle| #[trigger] world::only(before, query, h) implies out is Ok
                || after == before || one_more(before, object, after) by {
                assert(world::holds(before, h, query));
                assert(handles.contains(h));
                assert(handles.contains(handles[0]));
                assert(world::holds(before, handles[0], query));
                if handles.len() > 1 {
                    assert(handles.contains(handles[1]));
                    assert(world::holds(before, handles[1], query));
                }
            }
            assert forall|h: ObjectHandle| #[trigger]
                before.dom().contains(h) && !world::holds(before, h, query)
                implies after.dom().contains(h) && after[h] == before[h] by {
                assert(!handles.contains(h));
            }
        }
    }
}

/// A data object answers to its class and label.
proof fn lemma_data_matches(label: Seq<char>, value: Seq<u8>)
    ensures
        world::matches(
            store::data_object(label, value),
            store::query(ObjectClass::Data, label),
        ),
{
    let o = store::data_object(label, value);
    let q = store::query(ObjectClass::Data, label);
    assert(o[0] == q[0]);
    assert(o[3] == q[1]);
    assert forall|i: int| 0 <= i < q.len() implies o.contains(#[trigger] q[i]) by {
        if i == 0 {
            assert(o.contains(o[0]));
        } else {
            assert(o.contains(o[3]));
        }
    }
}

/// The value of a data object is what is read out of it.
proof fn lemma_first_value(label: Seq<char>, value: Seq<u8>, list: Seq<AttributeView>)
    requires
        world::read_out(store::data_object(label, value), seq![AttributeType::Value], list),
    ensures
        store::first_value(list) == Some(value),
{
    let o = store::data_object(label, value);
    let types = seq![AttributeType::Value];
    let v = AttributeView::Value(value);
    assert(o[5] == v);
    assert(types[0] == AttributeType::Value);
    assert(world::among(v, types));
    assert(o.contains(v));
    assert(list.contains(v));
    assert forall|a: AttributeView| #[trigger] list.contains(a) implies a == v by {
        assert(o.contains(a) && world::among(a, types));
        let i = o.index_of(a);
        assert(o[i] == a);
        assert(i == 5);
    }
    assert(list[0] == v) by {
        assert(list.contains(list[0]));
    }
}

/// What reading a data object comes to: its value where there is one, nothing
/// where there is none, or the token refuses.
proof fn lemma_read_data(
    w: World,
    label: Seq<char>,
    before: Objects,
    out: Result<Option<Seq<u8>>, Pkcs11ErrorView>,
    after: Objects,
)
    requires
        w.runs(store::read_data(label), before, out, after),
    ensures
        after == before,
        world::none_holds(before, store::query(ObjectClass::Data, label)) ==> (out is Err
            && w.may_refuse) || out == Ok::<Option<Seq<u8>>, Pkcs11ErrorView>(None),
        forall|h: ObjectHandle, value: Seq<u8>|
            #[trigger] world::only(before, store::query(ObjectClass::Data, label), h) && before[h]
                == #[trigger] store::data_object(label, value) ==> (out is Err && w.may_refuse)
                || out == Ok::<Option<Seq<u8>>, Pkcs11ErrorView>(Some(value)),
{
    let query = store::query(ObjectClass::Data, label);
    let (r, mid) = world::lemma_step(w, store::read_data(label), before, out, after);
    if let ReplyView::Handles(Ok(handles)) = r {
        if handles.len() > 0 {
            assert(handles.contains(handles[0]));
            let (r2, mid2) = world::lemma_step(
                w,
                store::read_found(label, handles),
                before,
                out,
                after,
            );
            assert forall|h: ObjectHandle, value: Seq<u8>|
                #[trigger] world::only(before, query, h) && before[h] == #[trigger] store::data_object(
                    label,
                    value,
                ) implies (out is Err && w.may_refuse) || out == Ok::<
                Option<Seq<u8>>,
                Pkcs11ErrorView,
            >(Some(value)) by {
                assert(world::holds(before, handles[0], query));
                assert(handles[0] == h);
                if let ReplyView::Attributes(Ok(list)) = r2 {
                    lemma_first_value(label, value, list);
                }
            }
        } else {
            assert forall|h: ObjectHandle| !world::only(before, query, h) by {
                if world::only(before, query, h) {
                    assert(world::holds(before, h, query));
                    assert(handles.contains(h));
                }
            }
        }
    }
}

/// After a replacement the new object is the one with its label.
proof fn lemma_only_after_replace(
    before: Objects,
    label: Seq<char>,
    value: Seq<u8>,
    h: ObjectHandle,
    after: Objects,
)
    requires
        after == world::without(before, store::query(ObjectClass::Data, label)).insert(
            h,
            store::data_object(label, value),
        ),
    ensures
        world::only(after, store::query(ObjectClass::Data, label), h),
        after[h] == store::data_object(label, value),
{
    lemma_data_matches(label, value);
    let query = store::query(ObjectClass::Data, label);
    assert forall|k: ObjectHandle| #[trigger] world::holds(after, k, query) <==> k == h by {
        if k != h && after.dom().contains(k) {
            assert(!world::holds(before, k, query));
            assert(after[k] == before[k]);
        }
    }
}

/// A policy that was saved is the one that is loaded, unless the token refuses
/// to give it.
pub proof fn law_policy_reads_back(
    w: World,
    label: Seq<char>,
    policy: PolicyView,
    before: Objects,
    h: ObjectHandle,
    saved: Objects,
    out: Result<PolicyView, Pkcs11ErrorView>,
    after: Objects,
)
    requires
        w.faithful(),
        w.runs(policy::policy_saving(label, policy), before, Ok(h), saved),
        w.runs(policy::policy_loading(label), saved, out, after),
    ensures
        after == saved,
        out == Ok::<PolicyView, Pkcs11ErrorView>(policy) || (w.may_refuse && out is Err),
{
    let name = key_ops::namespaced(label, "policy"@);
    law_replace_leaves_one(
        w,
        name,
        RequestView::EncodePolicy(policy),
        before,
        Ok(h),
        saved,
    );
    let value = (w.policy_bytes)(policy);
    lemma_only_after_replace(before, name, value, h, saved);
    let (d, mid) = world::lemma_runs_bind(
        w,
        store::read_data(name),
        policy::then_decode_policy(),
        saved,
        out,
        after,
    );
    lemma_read_data(w, name, saved, d, mid);
    if d is Ok {
        let (r, mid2) = world::lemma_step(w, policy::decode_policy(value), mid, out, after);
    }
}

/// Whether the token holds this policy for the signer `label`. With no policy on the
/// token everything is permitted.
pub open spec fn holds_policy(w: World, objects: Objects, label: Seq<char>, p: PolicyView) -> bool {
    let name = key_ops::namespaced(label, "policy"@);
    let query = store::query(ObjectClass::Data, name);
    ||| world::none_holds(objects, query) && p == PolicyView::permissive()
    ||| exists|h: ObjectHandle| #[trigger]
        world::only(objects, query, h) && objects[h] == store::data_object(name, (w.policy_bytes)(p))
}

/// What loading a policy comes to.
pub(crate) proof fn lemma_load_policy(
    w: World,
    label: Seq<char>,
    p: PolicyView,
    before: Objects,
    out: Result<PolicyView, Pkcs11ErrorView>,
    after: Objects,
)
    requires
        w.faithful(),
        holds_policy(w, before, label, p),
        w.runs(policy::policy_loading(label), before, out, after),
    ensures
        after == before,
        out == Ok::<PolicyView, Pkcs11ErrorView>(p) || (w.may_refuse && out is Err),
{
    let name = key_ops::namespaced(label, "policy"@);
    let (d, mid) = world::lemma_runs_bind(
        w,
        store::read_data(name),
        policy::then_decode_policy(),
        before,
        out,
        after,
    );
    lemma_read_data(w, name, before, d, mid);
    let value = (w.policy_bytes)(p);
    if d is Ok && d->Ok_0 is Some {
        assert(d == Ok::<Option<Seq<u8>>, Pkcs11ErrorView>(Some(value)));
        let (r, mid2) = world::lemma_step(w, policy::decode_policy(value), mid, out, after);
    }
}

/// With no policy on the token, everything is permitted.
pub proof fn law_no_policy_permits(
    w: World,
    label: Seq<char>,
    before: Objects,
    out: Result<PolicyView, Pkcs11ErrorView>,
    after: Objects,
)
    requires
        world::none_holds(
            before,
            store::query(ObjectClass::Data, key_ops::namespaced(label, "policy"@)),
        ),
        w.runs(policy::policy_loading(label), before, out, after),
    ensures
        after == before,
        out == Ok::<PolicyView, Pkcs11ErrorView>(PolicyView::permissive()) || (w.may_refuse
            && out is Err),
{
    let name = key_ops::namespaced(label, "policy"@);
    let (d, mid) = world::lemma_runs_bind(
        w,
        store::read_data(name),
        policy::then_decode_policy(),
        before,
        out,
        after,
    );
    lemma_read_data(w, name, before, d, mid);
}

/// A counter that was saved is the one that is loaded, unless the token refuses
/// to give it.
pub proof fn law_counter_reads_back(
    w: World,
    label: Seq<char>,
    times: Seq<u64>,
    before: Objects,
    saved: Objects,
    out: Result<Seq<u64>, Pkcs11ErrorView>,
    after: Objects,
)
    requires
        w.faithful(),
        w.runs(policy::sigrate_saving(label, times), before, Ok(()), saved),
        w.runs(policy::sigrate_loading(label), saved, out, after),
    ensures
        after == saved,
        out == Ok::<Seq<u64>, Pkcs11ErrorView>(times) || (w.may_refuse && out is Err),
{
    let name = key_ops::namespaced(label, "sigrate"@);
    let encode = RequestView::EncodeSigRate(times);
    let (h, mid0) = world::lemma_runs_bind(
        w,
        store::replace_data(name, encode),
        store::then_forget(),
        before,
        Ok::<(), Pkcs11ErrorView>(()),
        saved,
    );
    law_replace_leaves_one(w, name, encode, before, h, mid0);
    let value = (w.times_bytes)(times);
    assert(h is Ok);
    lemma_only_after_replace(before, name, value, h->Ok_0, saved);
    let (d, mid) = world::lemma_runs_bind(
        w,
        store::read_data(name),
        policy::then_decode_sigrate(),
        saved,
        out,
        after,
    );
    lemma_read_data(w, name, saved, d, mid);
    if d is Ok {
        let (r, mid2) = world::lemma_step(w, policy::decode_sigrate(value), mid, out, after);
    }
}

/// Whether an object has no two labels.
pub open spec fn one_label(object: Seq<AttributeView>) -> bool {
    forall|a: Seq<u8>, b: Seq<u8>| #[trigger]
        object.contains(AttributeView::Label(a)) && #[trigger] object.contains(
            AttributeView::Label(b),
        ) ==> a == b
}

/// Data objects under different labels do not get in each other's way: what
/// replaces one leaves the other as it was.
pub proof fn law_labels_are_separate(
    w: World,
    label: Seq<char>,
    other: Seq<char>,
    encode: RequestView,
    before: Objects,
    out: Result<ObjectHandle, Pkcs11ErrorView>,
    after: Objects,
    h: ObjectHandle,
)
    requires
        w.runs(store::replace_data(label, encode), before, out, after),
        written(w, encode) is Some,
        label != other,
        world::holds(before, h, store::query(ObjectClass::Data, other)),
        one_label(before[h]),
    ensures
        after.dom().contains(h),
        after[h] == before[h],
{
    law_replace_leaves_one(w, label, encode, before, out, after);
    let query = store::query(ObjectClass::Data, label);
    let theirs = store::query(ObjectClass::Data, other);
    if world::holds(before, h, query) {
        assert(before[h].contains(query[1]));
        assert(before[h].contains(theirs[1]));
        text::lemma_bytes_determine_text(label, other);
    }
}

/// The policy and the counter of a signer, and those of different signers, are
/// under different labels.
pub proof fn law_stores_are_separate(a: Seq<char>, b: Seq<char>)
    ensures
        key_ops::namespaced(a, "policy"@) != key_ops::namespaced(b, "sigrate"@),
        a != b ==> key_ops::namespaced(a, "policy"@) != key_ops::namespaced(b, "policy"@),
        a != b ==> key_ops::namespaced(a, "sigrate"@) != key_ops::namespaced(b, "sigrate"@),
{
    reveal_strlit("policy");
    reveal_strlit("sigrate");
    if key_ops::namespaced(a, "policy"@) == key_ops::namespaced(b, "sigrate"@) {
        key_ops::law_labels_distinct(a, b, "policy"@, "sigrate"@);
    }
    if key_ops::namespaced(a, "policy"@) == key_ops::namespaced(b, "policy"@) {
        key_ops::law_labels_distinct(a, b, "policy"@, "policy"@);
    }
    if key_ops::namespaced(a, "sigrate"@) == key_ops::namespaced(b, "sigrate"@) {
        key_ops::law_labels_distinct(a, b, "sigrate"@, "sigrate"@);
    }
}

// ---------------------------------------------------------------------------
// The ceiling on signatures
// ---------------------------------------------------------------------------

/// What counts at a time is what counts then of what counted earlier.
pub proof fn law_recent_of_recent(times: Seq<u64>, earlier: u64, later: u64)
    requires
        earlier <= later,
    ensures
        policy::recent(policy::recent(times, earlier), later) == policy::recent(times, later),
    decreases times.len(),
{
    if times.len() != 0 {
        law_recent_of_recent(times.drop_last(), earlier, later);
        let kept = policy::recent(times.drop_last(), earlier);
        assert(kept.push(times.last()).drop_last() =~= kept);
    }
}

/// What counts is among the times, in their order, and the times that count are
/// no more than an hour old.
pub proof fn law_recent_within_hour(times: Seq<u64>, now: u64)
    ensures
        policy::recent(times, now).len() <= times.len(),
        forall|i: int|
            0 <= i < policy::recent(times, now).len() ==> {
                &&& times.contains(#[trigger] policy::recent(times, now)[i])
                &&& policy::recent(times, now)[i] + 3600 >= now
            },
        (forall|i: int| 0 <= i < times.len() ==> #[trigger] times[i] + 3600 >= now)
            ==> policy::recent(times, now) == times,
    decreases times.len(),
{
    if times.len() != 0 {
        let rest = times.drop_last();
        law_recent_within_hour(rest, now);
        let kept = policy::recent(rest, now);
        assert forall|i: int| 0 <= i < policy::recent(times, now).len() implies {
            &&& times.contains(#[trigger] policy::recent(times, now)[i])
            &&& policy::recent(times, now)[i] + 3600 >= now
        } by {
            if i < kept.len() {
                assert(policy::recent(times, now)[i] == kept[i]);
                let j = rest.index_of(kept[i]);
                assert(times[j] == rest[j]);
            } else {
                assert(times.contains(times.last()));
            }
        }
        if forall|i: int| 0 <= i < times.len() ==> #[trigger] times[i] + 3600 >= now {
            assert forall|i: int| 0 <= i < rest.len() implies #[trigger] rest[i] + 3600 >= now by {
                assert(times[i] == rest[i]);
            }
            assert(times.last() >= policy::cutoff(now));
            assert(rest.push(times.last()) =~= times);
        }
    }
}

/// What the counter holds once signatures at these times, in turn, were
/// permitted and counted; nothing if one of them was not permitted.
pub open spec fn counted(times: Seq<u64>, max: u32) -> Option<Seq<u64>>
    decreases times.len(),
{
    if times.len() == 0 {
        Some(Seq::empty())
    } else {
        match counted(times.drop_last(), max) {
            Some(held) => match policy::check_rate(held, times.last(), max) {
                Ok(_) => Some(policy::recent(held, times.last()).push(times.last())),
                Err(_) => None,
            },
            None => None,
        }
    }
}

/// Whether each time is no earlier than those before it.
pub open spec fn in_order(times: Seq<u64>) -> bool {
    forall|i: int, j: int| 0 <= i <= j < times.len() ==> times[i] <= times[j]
}

proof fn lemma_counted_holds_recent(times: Seq<u64>, max: u32)
    requires
        in_order(times),
        counted(times, max) is Some,
        times.len() > 0,
    ensures
        counted(times, max) == Some(policy::recent(times, times.last())),
        policy::recent(times, times.last()).len() <= max,
    decreases times.len(),
{
    let rest = times.drop_last();
    let now = times.last();
    let held = counted(rest, max)->Some_0;
    if rest.len() == 0 {
        assert(held =~= rest);
    } else {
        assert(in_order(rest)) by {
            assert forall|i: int, j: int| 0 <= i <= j < rest.len() implies rest[i] <= rest[j] by {
                assert(times[i] <= times[j]);
            }
        }
        lemma_counted_holds_recent(rest, max);
        assert(times[times.len() - 2] <= times[times.len() - 1]);
        law_recent_of_recent(rest, rest.last(), now);
    }
    assert(policy::recent(held, now) == policy::recent(rest, now));
}

/// However many signatures are asked for, at most `max` are permitted and
/// counted within an hour: at no time are more than that among the last hour's,
/// as long as the clock does not go back.
pub proof fn law_at_most_max_in_an_hour(times: Seq<u64>, max: u32, now: u64)
    requires
        in_order(times),
        counted(times, max) is Some,
        times.len() > 0 ==> times.last() <= now,
    ensures
        policy::recent(times, now).len() <= max,
{
    if times.len() > 0 {
        lemma_counted_holds_recent(times, max);
        law_recent_of_recent(times, times.last(), now);
        law_recent_within_hour(policy::recent(times, times.last()), now);
    }
}

/// Whether the counter of the signer `label` holds these times. With no counter
/// on the token it holds none.
pub open spec fn holds_times(w: World, objects: Objects, label: Seq<char>, times: Seq<u64>) -> bool {
    let name = key_ops::namespaced(label, "sigrate"@);
    let query = store::query(ObjectClass::Data, name);
    ||| world::none_holds(objects, query) && times.len() == 0
    ||| exists|h: ObjectHandle| #[trigger]
        world::only(objects, query, h) && objects[h] == store::data_object(name, (w.times_bytes)(times))
}

/// What loading a counter comes to.
pub(crate) proof fn lemma_load_times(
    w: World,
    label: Seq<char>,
    times: Seq<u64>,
    before: Objects,
    out: Result<Seq<u64>, Pkcs11ErrorView>,
    after: Objects,
)
    requires
        w.faithful(),
        holds_times(w, before, label, times),
        w.runs(policy::sigrate_loading(label), before, out, after),
    ensures
        after == before,
        out == Ok::<Seq<u64>, Pkcs11ErrorView>(times) || (w.may_refuse && out is Err),
{
    let name = key_ops::namespaced(label, "sigrate"@);
    let (v, mid) = world::lemma_runs_bind(
        w,
        store::read_data(name),
        policy::then_decode_sigrate(),
        before,
        out,
        after,
    );
    lemma_read_data(w, name, before, v, mid);
    let value = (w.times_bytes)(times);
    if v is Ok {
        if world::none_holds(before, store::query(ObjectClass::Data, name)) && times.len() == 0 {
            assert(times =~= Seq::<u64>::empty());
        } else {
            assert(v == Ok::<Option<Seq<u8>>, Pkcs11ErrorView>(Some(value)));
            let (r, mid2) = world::lemma_step(w, policy::decode_sigrate(value), mid, out, after);
        }
    }
}

/// What holding a counter against the ceiling comes to.
pub(crate) proof fn lemma_rate_checking(
    w: World,
    label: Seq<char>,
    max: u32,
    times: Seq<u64>,
    before: Objects,
    out: Result<(), Pkcs11ErrorView>,
    after: Objects,
)
    requires
        w.faithful(),
        holds_times(w, before, label, times),
        w.runs(policy::rate_checking(label, Some(max)), before, out, after),
    ensures
        after == before,
        out == policy::check_rate(times, w.now, max) || (w.may_refuse && out is Err),
{
    let (d, mid) = world::lemma_runs_bind(
        w,
        policy::sigrate_loading(label),
        policy::then_check_now(max),
        before,
        out,
        after,
    );
    lemma_load_times(w, label, times, before, d, mid);
    if d is Ok {
        let (r, mid2) = world::lemma_step(w, policy::check_now(times, max), mid, out, after);
    }
}

/// A signature is counted if and only if there is room for it in the hour before,
/// unless the token refuses to read or write the counter. The counter then
/// holds the time behind those of the hour before. Where there is no room the
/// ceiling is named, and nothing changes. Nothing but the counter ever does.
pub proof fn law_ceiling_holds(
    w: World,
    label: Seq<char>,
    max: u32,
    times: Seq<u64>,
    before: Objects,
    out: Result<(), Pkcs11ErrorView>,
    after: Objects,
)
    requires
        w.faithful(),
        holds_times(w, before, label, times),
        w.runs(policy::rate_recording(label, Some(max)), before, out, after),
    ensures
        out is Ok ==> policy::recent(times, w.now).len() < max,
        out is Ok ==> holds_times(w, after, label, policy::recent(times, w.now).push(w.now)),
        policy::recent(times, w.now).len() < max && !w.may_refuse ==> out is Ok,
        policy::recent(times, w.now).len() >= max ==> after == before && (out
            == policy::check_rate(times, w.now, max) || (w.may_refuse && out is Err)),
        world::kept(
            before,
            after,
            store::query(ObjectClass::Data, key_ops::namespaced(label, "sigrate"@)),
        ),
{
    let name = key_ops::namespaced(label, "sigrate"@);
    let (d, mid) = world::lemma_runs_bind(
        w,
        policy::sigrate_loading(label),
        policy::then_count_one(label, max),
        before,
        out,
        after,
    );
    lemma_load_times(w, label, times, before, d, mid);
    if d is Ok {
        let (t, mid3) = world::lemma_step(
            w,
            policy::count_one(label, times, max),
            mid,
            out,
            after,
        );
        let now = w.now;
        if policy::recent(times, now).len() < max {
            let new = policy::recent(times, now).push(now);
            let encode = RequestView::EncodeSigRate(new);
            let (k, mid4) = world::lemma_runs_bind(
                w,
                store::replace_data(name, encode),
                store::then_forget(),
                mid3,
                out,
                after,
            );
            law_replace_leaves_one(w, name, encode, mid3, k, mid4);
            if k is Ok {
                lemma_only_after_replace(mid3, name, (w.times_bytes)(new), k->Ok_0, after);
            }
        }
    }
}

/// The counter on the token keeps up with what was signed: where it holds what
/// counting these times in turn leaves, and a signature is counted now, it holds
/// what counting them and now leaves. So the ceiling holds of all the signatures
/// that were ever counted.
pub proof fn law_counter_keeps_up(
    w: World,
    label: Seq<char>,
    max: u32,
    times: Seq<u64>,
    held: Seq<u64>,
    before: Objects,
    after: Objects,
)
    requires
        w.faithful(),
        counted(times, max) == Some(held),
        holds_times(w, before, label, held),
        w.runs(policy::rate_recording(label, Some(max)), before, Ok(()), after),
    ensures
        counted(times.push(w.now), max) is Some,
        holds_times(w, after, label, counted(times.push(w.now), max)->Some_0),
{
    law_ceiling_holds(w, label, max, held, before, Ok(()), after);
    assert(times.push(w.now).drop_last() =~= times);
}

/// The counter is updated as a whole or not at all. Where a signature is not
/// counted, and the token destroys what it is told to, the token is as it was, and
/// its counter still holds what it held: a refusal to write the new counter does
/// not lose the old one. Where the token refuses even to destroy, the old counter
/// is there still, at worst with the new one beside it.
pub proof fn law_counting_is_all_or_nothing(
    w: World,
    label: Seq<char>,
    max: u32,
    times: Seq<u64>,
    before: Objects,
    e: Pkcs11ErrorView,
    after: Objects,
)
    requires
        w.faithful(),
        holds_times(w, before, label, times),
        w.runs(policy::rate_recording(label, Some(max)), before, Err(e), after),
    ensures
        w.destroys ==> after == before && holds_times(w, after, label, times),
        after == before || one_more(
            before,
            store::data_object(
                key_ops::namespaced(label, "sigrate"@),
                (w.times_bytes)(policy::recent(times, w.now).push(w.now)),
            ),
            after,
        ),
{
    let name = key_ops::namespaced(label, "sigrate"@);
    let out = Err::<(), Pkcs11ErrorView>(e);
    let (d, mid) = world::lemma_runs_bind(
        w,
        policy::sigrate_loading(label),
        policy::then_count_one(label, max),
        before,
        out,
        after,
    );
    lemma_load_times(w, label, times, before, d, mid);
    if d is Ok {
        let (t, mid2) = world::lemma_step(
            w,
            policy::count_one(label, times, max),
            mid,
            out,
            after,
        );
        let now = w.now;
        if policy::recent(times, now).len() < max {
            let encode = RequestView::EncodeSigRate(policy::recent(times, now).push(now));
            let (k, mid3) = world::lemma_runs_bind(
                w,
                store::replace_data(name, encode),
                store::then_forget(),
                before,
                out,
                after,
            );
            law_replace_is_all_or_nothing(w, name, encode, before, k->Err_0, after);
        }
    }
}

// ---------------------------------------------------------------------------
// The last hour
// ---------------------------------------------------------------------------

/// What counts at a time is what is no more than an hour old then, every time as often
/// as it is there, in the order it is in.
pub proof fn law_recent_is_the_last_hour(times: Seq<u64>, now: u64)
    ensures
        policy::recent(times, now) == times.filter(|t: u64| t + 3600 >= now),
    decreases times.len(),
{
    let f = |t: u64| t + 3600 >= now;
    reveal(Seq::filter);
    if times.len() != 0 {
        law_recent_is_the_last_hour(times.drop_last(), now);
    }
    assert(policy::recent(times, now) =~= times.filter(f));
}

/// There is room for another signature if and only if fewer than the ceiling are no
/// more than an hour old. Else the policy is violated.
pub proof fn law_rate_is_of_the_last_hour(times: Seq<u64>, now: u64, max: u32)
    ensures
        policy::check_rate(times, now, max) is Ok <==> times.filter(
            |t: u64| t + 3600 >= now,
        ).len() < max,
        policy::check_rate(times, now, max) matches Err(e) ==> e is PolicyViolation,
{
    law_recent_is_the_last_hour(times, now);
}

// ---------------------------------------------------------------------------
// Data objects
// ---------------------------------------------------------------------------

/// The label of an object of a signer on the token.
pub open spec fn data_label(label: Seq<char>, what: Seq<char>) -> Seq<char> {
    "emvault/v1/"@ + label + "/"@ + what
}

/// Every object of a signer has a label in the library's namespace that holds the
/// signer's label and what the object is; a private key is `priv` and a public one
/// `pub`.
pub proof fn law_labels_are_in_the_namespace(label: Seq<char>, what: Seq<char>)
    ensures
        key_ops::namespaced(label, what) == data_label(label, what),
        key_ops::PRIV_SUFFIX@ == "priv"@,
        key_ops::PUB_SUFFIX@ == "pub"@,
{
    reveal_strlit("emvault/v1/");
    reveal_strlit("emvault/v1");
    reveal_strlit("/");
    assert(key_ops::namespaced(label, what) =~= data_label(label, what));
}

/// What is stored is a data object that stays on the token, that only the user who is
/// logged in can read, with the label and the value that are given and no other.
pub proof fn law_stored_objects_stay(label: Seq<char>, value: Seq<u8>)
    ensures
        ({
            let prog = store::create_data(label, value);
            let object = prog->Ask_0->CreateObject_0;
            &&& prog is Ask
            &&& prog->Ask_0 is CreateObject
            &&& object.contains(AttributeView::Class(ObjectClass::Data))
            &&& object.contains(AttributeView::Token(true))
            &&& object.contains(AttributeView::Private(true))
            &&& !object.contains(AttributeView::Token(false))
            &&& !object.contains(AttributeView::Private(false))
            &&& forall|l: Seq<u8>| #[trigger]
                object.contains(AttributeView::Label(l)) <==> l == vstd::utf8::encode_utf8(label)
            &&& forall|v: Seq<u8>| #[trigger]
                object.contains(AttributeView::Value(v)) <==> v == value
        }),
{
    let object = store::data_object(label, value);
    assert(object[0] == AttributeView::Class(ObjectClass::Data));
    assert(object[1] == AttributeView::Token(true));
    assert(object[2] == AttributeView::Private(true));
    assert(object[3] == AttributeView::Label(vstd::utf8::encode_utf8(label)));
    assert(object[5] == AttributeView::Value(value));
    assert forall|v: Seq<u8>| #[trigger] object.contains(AttributeView::Value(v)) implies v
        == value by {
        let i = object.index_of(AttributeView::Value(v));
        assert(i == 5);
    }
    assert forall|l: Seq<u8>| #[trigger] object.contains(AttributeView::Label(l)) implies l
        == vstd::utf8::encode_utf8(label) by {
        let i = object.index_of(AttributeView::Label(l));
        assert(i == 3);
    }
}

/// The first value among the attributes is the value of the first attribute that is
/// one.
proof fn lemma_first_value_at(list: Seq<AttributeView>, i: int, value: Seq<u8>)
    requires
        0 <= i < list.len(),
        list[i] == AttributeView::Value(value),
        forall|k: int| 0 <= k < i ==> #[trigger] list[k] !is Value,
    ensures
        store::first_value(list) == Some(value),
    decreases list.len(),
{
    if i > 0 {
        let rest = list.drop_first();
        assert(list[0] !is Value);
        assert forall|k: int| 0 <= k < i - 1 implies #[trigger] rest[k] !is Value by {
            assert(list[k + 1] == rest[k]);
        }
        lemma_first_value_at(rest, i - 1, value);
    }
}

/// A data object is read in two steps: the data objects with the label are looked for,
/// and the value of the first is asked for. It is the first value that comes. Without
/// such an object there is no value, and that is no error.
pub proof fn law_stored_value_is_read(
    label: Seq<char>,
    handles: Seq<ObjectHandle>,
    list: Seq<AttributeView>,
    i: int,
    value: Seq<u8>,
)
    requires
        handles.len() > 0,
        0 <= i < list.len(),
        list[i] == AttributeView::Value(value),
        forall|k: int| 0 <= k < i ==> #[trigger] list[k] !is Value,
    ensures
        ({
            let prog = store::read_data(label);
            let found = (prog->Ask_1)(ReplyView::Handles(Ok(handles)));
            &&& prog is Ask
            &&& prog->Ask_0 == RequestView::FindObjects(
                seq![
                    AttributeView::Class(ObjectClass::Data),
                    AttributeView::Label(vstd::utf8::encode_utf8(label)),
                ],
            )
            &&& (prog->Ask_1)(ReplyView::Handles(Ok(Seq::empty()))) == Prog::<
                Result<Option<Seq<u8>>, Pkcs11ErrorView>,
            >::Done(Ok(None))
            &&& found is Ask
            &&& found->Ask_0 == RequestView::GetAttributes(handles[0], seq![AttributeType::Value])
            &&& (found->Ask_1)(ReplyView::Attributes(Ok(list))) == Prog::<
                Result<Option<Seq<u8>>, Pkcs11ErrorView>,
            >::Done(Ok(Some(value)))
        }),
{
    lemma_first_value_at(list, i, value);
}

/// The policy and the counter of a signer are the data objects with the labels that
/// end in `policy` and `sigrate`, and their values are handed on to be decoded as they
/// are. What is decoded is what comes of it; without an object everything is
/// permitted, and nothing is counted.
pub proof fn law_policy_and_counter_are_read(
    label: Seq<char>,
    read: Seq<ReplyView>,
    value: Seq<u8>,
    p: PolicyView,
    times: Seq<u64>,
)
    ensures
        run::behind(store::read_data(data_label(label, "policy"@)), read) == Prog::<
            Result<Option<Seq<u8>>, Pkcs11ErrorView>,
        >::Done(Ok(Some(value))) ==> {
            let prog = policy::policy_loading(label);
            &&& run::behind(prog, read) is Ask
            &&& run::behind(prog, read)->Ask_0 == RequestView::DecodePolicy(value)
            &&& (run::behind(prog, read)->Ask_1)(ReplyView::Policy(Ok(p))) == Prog::<
                Result<PolicyView, Pkcs11ErrorView>,
            >::Done(Ok(p))
        },
        run::behind(store::read_data(data_label(label, "policy"@)), read) == Prog::<
            Result<Option<Seq<u8>>, Pkcs11ErrorView>,
        >::Done(Ok(None)) ==> run::behind(policy::policy_loading(label), read) == Prog::<
            Result<PolicyView, Pkcs11ErrorView>,
        >::Done(
            Ok(
                PolicyView {
                    per_transaction_limit: None,
                    max_signatures_per_hour: None,
                    destination_whitelist: None,
                },
            ),
        ),
        run::behind(store::read_data(data_label(label, "sigrate"@)), read) == Prog::<
            Result<Option<Seq<u8>>, Pkcs11ErrorView>,
        >::Done(Ok(Some(value))) ==> {
            let prog = policy::sigrate_loading(label);
            &&& run::behind(prog, read) is Ask
            &&& run::behind(prog, read)->Ask_0 == RequestView::DecodeSigRate(value)
            &&& (run::behind(prog, read)->Ask_1)(ReplyView::SigRate(Ok(times))) == Prog::<
                Result<Seq<u64>, Pkcs11ErrorView>,
            >::Done(Ok(times))
        },
        run::behind(store::read_data(data_label(label, "sigrate"@)), read) == Prog::<
            Result<Option<Seq<u8>>, Pkcs11ErrorView>,
        >::Done(Ok(None)) ==> run::behind(policy::sigrate_loading(label), read) == Prog::<
            Result<Seq<u64>, Pkcs11ErrorView>,
        >::Done(Ok(Seq::empty())),
{
    law_labels_are_in_the_namespace(label, "policy"@);
    law_labels_are_in_the_namespace(label, "sigrate"@);
    let a = store::read_data(data_label(label, "policy"@));
    let b = store::read_data(data_label(label, "sigrate"@));
    if run::behind(a, read) is Done {
        run::lemma_behind_bind(a, policy::then_decode_policy(), read);
    }
    if run::behind(b, read) is Done {
        run::lemma_behind_bind(b, policy::then_decode_sigrate(), read);
    }
}

/// A policy is written in place of the one with the signer's label: those that are
/// there are looked for, the policy is encoded as it is, and what that gives is the
/// value of a new object with the label.
pub proof fn law_policy_is_written(
    label: Seq<char>,
    p: PolicyView,
    handles: Seq<ObjectHandle>,
    value: Seq<u8>,
)
    ensures
        ({
            let prog = policy::policy_saving(label, p);
            let found = (prog->Ask_1)(ReplyView::Handles(Ok(handles)));
            let encoded = (found->Ask_1)(ReplyView::Encoded(Ok(value)));
            &&& prog is Ask
            &&& prog->Ask_0 == RequestView::FindObjects(
                seq![
                    AttributeView::Class(ObjectClass::Data),
                    AttributeView::Label(
                        vstd::utf8::encode_utf8(data_label(label, "policy"@)),
                    ),
                ],
            )
            &&& found is Ask
            &&& found->Ask_0 == RequestView::EncodePolicy(p)
            &&& encoded is Ask
            &&& encoded->Ask_0 is CreateObject
            &&& encoded->Ask_0 == store::create_data(data_label(label, "policy"@), value)->Ask_0
        }),
{
    law_labels_are_in_the_namespace(label, "policy"@);
    let name = key_ops::namespaced(label, "policy"@);
    let prog = policy::policy_saving(label, p);
    let first = store::encode_and_create(name, RequestView::EncodePolicy(p));
    let found = (prog->Ask_1)(ReplyView::Handles(Ok(handles)));
    assert(found == first.bind(store::then_clear(handles)));
    let r = ReplyView::Encoded(Ok::<Seq<u8>, Seq<char>>(value));
    assert((found->Ask_1)(r) == (first->Ask_1)(r).bind(store::then_clear(handles)));
    assert((first->Ask_1)(r) == store::create_data(name, value));
}

} // verus!
