//! What operations come to with a token that keeps to PKCS#11.
//!
//! A token holds objects, each a list of attributes. It answers a request by
//! what it holds. It may also refuse a request, and then holds what it held. A
//! backend derives the same key from the same key along the same path, and gives
//! no label to what it derives so.
use crate::backend;
use crate::bip32::{ChildNumber, XpubView};
use crate::policy::PolicyView;
use crate::program::{Prog, ReplyView, RequestView};
use crate::token::{AttributeType, AttributeView, ObjectClass, ObjectHandle};
use vstd::prelude::*;

verus! {

/// What a token holds.
pub type Objects = Map<ObjectHandle, Seq<AttributeView>>;

/// Whether an object has all the attributes.
pub open spec fn matches(object: Seq<AttributeView>, template: Seq<AttributeView>) -> bool {
    forall|i: int| 0 <= i < template.len() ==> object.contains(#[trigger] template[i])
}

/// Whether the token holds an object with all the attributes under the handle.
pub open spec fn holds(objects: Objects, h: ObjectHandle, template: Seq<AttributeView>) -> bool {
    objects.dom().contains(h) && matches(objects[h], template)
}

/// Whether the handles are those of the objects with all the attributes, each
/// once.
pub open spec fn found(
    objects: Objects,
    template: Seq<AttributeView>,
    handles: Seq<ObjectHandle>,
) -> bool {
    &&& handles.no_duplicates()
    &&& forall|h: ObjectHandle| #[trigger] handles.contains(h) <==> holds(objects, h, template)
}

/// Whether this is the one object with all the attributes.
pub open spec fn only(objects: Objects, template: Seq<AttributeView>, h: ObjectHandle) -> bool {
    forall|k: ObjectHandle| #[trigger] holds(objects, k, template) <==> k == h
}

/// Whether no object has all the attributes.
pub open spec fn none_holds(objects: Objects, template: Seq<AttributeView>) -> bool {
    forall|k: ObjectHandle| !#[trigger] holds(objects, k, template)
}

/// The objects that lack one of the attributes.
pub open spec fn without(objects: Objects, template: Seq<AttributeView>) -> Objects {
    Map::new(
        |h: ObjectHandle| objects.dom().contains(h) && !holds(objects, h, template),
        |h: ObjectHandle| objects[h],
    )
}

/// Whether every object that lacks one of the attributes is as it was.
pub open spec fn kept(before: Objects, after: Objects, template: Seq<AttributeView>) -> bool {
    forall|h: ObjectHandle| #[trigger]
        before.dom().contains(h) && !holds(before, h, template) ==> after.dom().contains(h)
            && after[h] == before[h]
}

/// Whether every object is as it was.
pub open spec fn all_kept(before: Objects, after: Objects) -> bool {
    forall|h: ObjectHandle| #[trigger]
        before.dom().contains(h) ==> after.dom().contains(h) && after[h] == before[h]
}

/// Whether there is one object more, under the handle.
pub open spec fn adds(before: Objects, h: ObjectHandle, after: Objects) -> bool {
    &&& !before.dom().contains(h)
    &&& after.dom().contains(h)
    &&& after == before.insert(h, after[h])
}

/// Whether nothing that was added has a label.
pub open spec fn adds_unlabelled(before: Objects, after: Objects) -> bool {
    forall|h: ObjectHandle, label: Seq<u8>|
        #![trigger after[h].contains(AttributeView::Label(label))]
        after.dom().contains(h) && !before.dom().contains(h) && after[h].contains(
            AttributeView::Label(label),
        ) ==> label.len() == 0
}

/// Whether nothing that was added is a private key, but for this one.
pub open spec fn adds_one_key(before: Objects, key: ObjectHandle, after: Objects) -> bool {
    forall|h: ObjectHandle| #[trigger]
        after.dom().contains(h) && !before.dom().contains(h) && h != key ==> !after[h].contains(
            AttributeView::Class(ObjectClass::PrivateKey),
        )
}

/// The type of an attribute, if it is one that the library reads out.
pub open spec fn type_of(a: AttributeView) -> Option<AttributeType> {
    match a {
        AttributeView::EcPoint(_) => Some(AttributeType::EcPoint),
        AttributeView::Value(_) => Some(AttributeType::Value),
        AttributeView::VendorDefined(n, _) => Some(AttributeType::VendorDefined(n)),
        _ => None,
    }
}

/// Whether the attribute is of one of these types.
pub open spec fn among(a: AttributeView, types: Seq<AttributeType>) -> bool {
    type_of(a) is Some && types.contains(type_of(a)->Some_0)
}

/// Whether these are the object's attributes of the types asked for.
pub open spec fn read_out(
    object: Seq<AttributeView>,
    types: Seq<AttributeType>,
    list: Seq<AttributeView>,
) -> bool {
    forall|a: AttributeView| #[trigger] list.contains(a) <==> object.contains(a) && among(a, types)
}

/// What the operations have to do with.
pub struct World {
    /// How a policy is written down.
    pub policy_bytes: spec_fn(PolicyView) -> Seq<u8>,
    /// How a policy is read.
    pub policy_of: spec_fn(Seq<u8>) -> Result<PolicyView, Seq<char>>,
    /// How a counter is written down.
    pub times_bytes: spec_fn(Seq<u64>) -> Seq<u8>,
    /// How a counter is read.
    pub times_of: spec_fn(Seq<u8>) -> Result<Seq<u64>, Seq<char>>,
    /// What the clock says.
    pub now: u64,
    /// Whether the token may refuse what it could do.
    pub may_refuse: bool,
    /// Whether the token destroys whatever it is told to, if it holds it.
    pub destroys: bool,
    /// The key that a path leads to from a key. The same path leads from the same
    /// key to the same key.
    pub key_at: spec_fn(Seq<AttributeView>, Seq<ChildNumber>) -> Option<Seq<AttributeView>>,
    /// The extended public key of a key.
    pub xpub_of: spec_fn(Seq<AttributeView>) -> Option<XpubView>,
    /// The fingerprint of a key.
    pub fingerprint_of: spec_fn(Seq<AttributeView>) -> Option<Seq<u8>>,
}

impl World {
    /// What is written down reads as what it was.
    pub open spec fn faithful(self) -> bool {
        &&& forall|p: PolicyView|
            (self.policy_of)(#[trigger] (self.policy_bytes)(p)) == Ok::<PolicyView, Seq<char>>(p)
        &&& forall|t: Seq<u64>|
            (self.times_of)(#[trigger] (self.times_bytes)(t)) == Ok::<Seq<u64>, Seq<char>>(t)
    }

    /// Whether the request can be answered so, and leave the token so.
    pub open spec fn answers(
        self,
        before: Objects,
        q: RequestView,
        r: ReplyView,
        after: Objects,
    ) -> bool {
        match q {
            RequestView::FindObjects(template) => before == after && (match r {
                ReplyView::Handles(Ok(handles)) => found(before, template, handles),
                ReplyView::Handles(Err(_)) => self.may_refuse,
                _ => false,
            }),
            RequestView::GetAttributes(h, types) => before == after && (match r {
                ReplyView::Attributes(Ok(list)) => before.dom().contains(h) && read_out(
                    before[h],
                    types,
                    list,
                ),
                ReplyView::Attributes(Err(_)) => self.may_refuse || !before.dom().contains(h),
                _ => false,
            }),
            RequestView::CreateObject(template) => match r {
                ReplyView::Handle(Ok(h)) => !before.dom().contains(h) && after == before.insert(
                    h,
                    template,
                ),
                ReplyView::Handle(Err(_)) => self.may_refuse && before == after,
                _ => false,
            },
            RequestView::DestroyObject(h) => match r {
                ReplyView::Unit(Ok(_)) => before.dom().contains(h) && after == before.remove(h),
                ReplyView::Unit(Err(_)) => ((self.may_refuse && !self.destroys)
                    || !before.dom().contains(h)) && before == after,
                _ => false,
            },
            RequestView::DeriveKey { template, .. } => match r {
                ReplyView::Handle(Ok(h)) => adds(before, h, after) && matches(after[h], template),
                ReplyView::Handle(Err(_)) => before == after,
                _ => false,
            },
            RequestView::DeriveChild(_, _) => match r {
                ReplyView::Derived(Ok(h)) => adds(before, h, after),
                ReplyView::Derived(Err(_)) => before == after,
                _ => false,
            },
            RequestView::DerivePath(from, path) => all_kept(before, after) && adds_unlabelled(
                before,
                after,
            ) && (match r {
                ReplyView::Derived(Ok(h)) => if path.len() == 0 {
                    h == from && before == after
                } else {
                    &&& !before.dom().contains(h)
                    &&& after.dom().contains(h)
                    &&& path.len() == 1 ==> adds(before, h, after)
                    &&& before.dom().contains(from)
                    &&& (self.key_at)(before[from], path) == Some(after[h])
                },
                ReplyView::Derived(Err(_)) => {
                    &&& path.len() <= 1 ==> before == after
                    &&& self.may_refuse || (path.len() > 0 && (!before.dom().contains(from) || (
                    self.key_at)(before[from], path) is None))
                },
                _ => false,
            }),
            RequestView::ReadXpub(h) => before == after && (match r {
                ReplyView::Xpub(Ok(xpub)) => before.dom().contains(h) && (self.xpub_of)(before[h])
                    == Some(xpub),
                ReplyView::Xpub(Err(_)) => self.may_refuse || !before.dom().contains(h) || (
                self.xpub_of)(before[h]) is None,
                _ => false,
            }),
            RequestView::MasterFingerprint(h) => before == after && (match r {
                ReplyView::MasterFingerprint(Ok(f)) => before.dom().contains(h) && (
                self.fingerprint_of)(before[h]) == Some(f),
                ReplyView::MasterFingerprint(Err(_)) => self.may_refuse || !before.dom().contains(h)
                    || (self.fingerprint_of)(before[h]) is None,
                _ => false,
            }),
            RequestView::DeriveMasterKey(_, label) => all_kept(before, after) && (match r {
                ReplyView::Master(Ok(m)) => {
                    &&& !before.dom().contains(m.key_handle)
                    &&& after.dom().contains(m.key_handle)
                    &&& matches(after[m.key_handle], backend::master_key(label))
                    &&& adds_one_key(before, m.key_handle, after)
                    &&& (self.xpub_of)(after[m.key_handle]) == Some(m.xpub)
                    &&& (self.fingerprint_of)(after[m.key_handle]) == Some(m.fingerprint)
                },
                ReplyView::Master(Err(_)) => true,
                _ => false,
            }),
            RequestView::StrategySign(_, _) => all_kept(before, after) && adds_unlabelled(
                before,
                after,
            ) && r is StrategySignature,
            RequestView::EncodePolicy(p) => before == after && r == ReplyView::Encoded(
                Ok((self.policy_bytes)(p)),
            ),
            RequestView::DecodePolicy(b) => before == after && r == ReplyView::Policy(
                (self.policy_of)(b),
            ),
            RequestView::EncodeSigRate(t) => before == after && r == ReplyView::Encoded(
                Ok((self.times_bytes)(t)),
            ),
            RequestView::DecodeSigRate(b) => before == after && r == ReplyView::SigRate(
                (self.times_of)(b),
            ),
            RequestView::Now => before == after && r == ReplyView::Time(self.now),
            _ => before == after,
        }
    }

    /// Whether the program can come to `out`, and leave the token so.
    pub open spec fn runs<A>(self, prog: Prog<A>, before: Objects, out: A, after: Objects) -> bool
        decreases prog,
    {
        match prog {
            Prog::Done(a) => a == out && before == after,
            Prog::Ask(q, next) => exists|r: ReplyView, mid: Objects| #[trigger]
                self.answers(before, q, r, mid) && self.runs(next(r), mid, out, after),
            Prog::Stuck => false,
        }
    }
}

/// One step of a run: the reply, and what the token then holds.
pub(crate) proof fn lemma_step<A>(w: World, prog: Prog<A>, before: Objects, out: A, after: Objects) -> (res: (
    ReplyView,
    Objects,
))
    requires
        w.runs(prog, before, out, after),
        prog is Ask,
    ensures
        w.answers(before, prog->Ask_0, res.0, res.1),
        w.runs((prog->Ask_1)(res.0), res.1, out, after),
{
    let q = prog->Ask_0;
    let next = prog->Ask_1;
    choose|r: ReplyView, mid: Objects| #[trigger]
        w.answers(before, q, r, mid) && w.runs(next(r), mid, out, after)
}

/// A run of two programs is a run of the first, and then one of the second.
pub(crate) proof fn lemma_runs_bind<A, B>(
    w: World,
    prog: Prog<A>,
    next: spec_fn(A) -> Prog<B>,
    before: Objects,
    out: B,
    after: Objects,
) -> (res: (A, Objects))
    requires
        w.runs(prog.bind(next), before, out, after),
    ensures
        w.runs(prog, before, res.0, res.1),
        w.runs(next(res.0), res.1, out, after),
    decreases prog,
{
    match prog {
        Prog::Done(a) => (a, before),
        Prog::Ask(q, k) => {
            let (r, mid) = lemma_step(w, prog.bind(next), before, out, after);
            let res = lemma_runs_bind(w, k(r), next, mid, out, after);
            assert(w.answers(before, q, r, mid) && w.runs(k(r), mid, res.0, res.1));
            res
        },
        Prog::Stuck => arbitrary(),
    }
}

} // verus!
