//! Keys on the token: their labels, how they are found and removed, and the
//! encoding of their public points.
use crate::error::{Pkcs11Error, Pkcs11ErrorView};
use crate::program;
use crate::program::{Machine, Operation, Prog, Reply, ReplyView, Request, RequestView, Step};
use crate::store;
use crate::store::DestroyAll;
use crate::text;
use crate::token::{ObjectClass, ObjectHandle};
use vstd::prelude::*;
use vstd::string::*;

verus! {

/// The namespace that the label of every object of this library starts with.
pub const PREFIX: &'static str = "emvault/v1";

/// The object identifier of the curve secp256k1, 1.3.132.0.10, in DER.
pub const SECP256K1_OID_DER: [u8; 7] = [0x06, 0x05, 0x2B, 0x81, 0x04, 0x00, 0x0A];

/// The last part of the label of a private key.
pub const PRIV_SUFFIX: &'static str = "priv";

/// The last part of the label of a public key.
pub const PUB_SUFFIX: &'static str = "pub";

// ---------------------------------------------------------------------------
// Labels
// ---------------------------------------------------------------------------

/// The label of an object of the signer `label`.
pub open spec fn namespaced(label: Seq<char>, suffix: Seq<char>) -> Seq<char> {
    PREFIX@ + "/"@ + label + "/"@ + suffix
}

/// The label of an object of the signer `label`.
pub(crate) fn namespaced_label(label: &str, suffix: &str) -> (l: String)
    ensures
        l@ == namespaced(label@, suffix@),
{
    text::join5(PREFIX, "/", label, "/", suffix)
}

/// The label of the private key.
pub fn priv_label(label: &str) -> (l: String)
    ensures
        l@ == namespaced(label@, PRIV_SUFFIX@),
{
    namespaced_label(label, PRIV_SUFFIX)
}

/// The label of the public key.
pub fn pub_label(label: &str) -> (l: String)
    ensures
        l@ == namespaced(label@, PUB_SUFFIX@),
{
    namespaced_label(label, PUB_SUFFIX)
}

/// Whether a text has no slash in it.
pub open spec fn no_slash(s: Seq<char>) -> bool {
    forall|i: int| 0 <= i < s.len() ==> s[i] != '/'
}

/// The last parts that the library uses.
pub open spec fn is_suffix(s: Seq<char>) -> bool {
    s == PRIV_SUFFIX@ || s == PUB_SUFFIX@ || s == "policy"@ || s == "sigrate"@
}

/// Objects of different signers, and different objects of one signer, have
/// different labels, whatever the signers are called.
pub proof fn law_labels_distinct(a: Seq<char>, b: Seq<char>, s: Seq<char>, t: Seq<char>)
    requires
        is_suffix(s),
        is_suffix(t),
        namespaced(a, s) == namespaced(b, t),
    ensures
        a == b,
        s == t,
{
    reveal_strlit("emvault/v1");
    reveal_strlit("/");
    reveal_strlit("priv");
    reveal_strlit("pub");
    reveal_strlit("policy");
    reveal_strlit("sigrate");
    assert(no_slash(s) && no_slash(t));
    let l = namespaced(a, s);
    let n = l.len();
    assert(l[n - s.len() - 1] == '/');
    assert(l[n - t.len() - 1] == '/');
    assert forall|i: int| 0 <= i < s.len() implies l[n - s.len() + i] == #[trigger] s[i] by {}
    assert forall|i: int| 0 <= i < t.len() implies l[n - t.len() + i] == #[trigger] t[i] by {}
    if s.len() < t.len() {
        assert(t[t.len() - s.len() - 1] == '/');
    }
    if t.len() < s.len() {
        assert(s[s.len() - t.len() - 1] == '/');
    }
    assert(s =~= l.subrange(n - s.len(), n as int));
    assert(t =~= l.subrange(n - t.len(), n as int));
    assert(a =~= l.subrange(11, n - s.len() - 1));
    assert(b =~= l.subrange(11, n - t.len() - 1));
}

// ---------------------------------------------------------------------------
// Finding a key
// ---------------------------------------------------------------------------

/// A key on the token.
#[derive(Clone, Copy, Debug)]
pub struct LoadedKey {
    /// The private key, which signs.
    pub private_key: ObjectHandle,
}

/// What a search for a private key comes to: no key, the one key, or an error
/// where there are more.
pub open spec fn one_key(label: Seq<char>, handles: Seq<ObjectHandle>) -> Result<
    Option<LoadedKey>,
    Pkcs11ErrorView,
> {
    if handles.len() == 0 {
        Ok(None)
    } else if handles.len() == 1 {
        Ok(Some(LoadedKey { private_key: handles[0] }))
    } else {
        Err(
            Pkcs11ErrorView::Ambiguous {
                query: namespaced(label, PRIV_SUFFIX@),
                count: handles.len(),
            },
        )
    }
}

/// Looks up the private key of the signer `label`.
pub open spec fn find_key(label: Seq<char>) -> Prog<Result<Option<LoadedKey>, Pkcs11ErrorView>> {
    Prog::Ask(
        RequestView::FindObjects(
            store::query(ObjectClass::PrivateKey, namespaced(label, PRIV_SUFFIX@)),
        ),
        |r: ReplyView|
            match r {
                ReplyView::Handles(Ok(handles)) => Prog::Done(one_key(label, handles)),
                ReplyView::Handles(Err(e)) => Prog::Done(Err(Pkcs11ErrorView::Pkcs11(e))),
                _ => Prog::Stuck,
            },
    )
}

/// Looks up a key.
pub struct FindKey {
    label: String,
}

impl Operation for FindKey {
    type Out = Result<Option<LoadedKey>, Pkcs11Error>;

    type OutView = Result<Option<LoadedKey>, Pkcs11ErrorView>;

    closed spec fn prog(self) -> Prog<Result<Option<LoadedKey>, Pkcs11ErrorView>> {
        find_key(self.label@)
    }

    open spec fn out_view(out: Result<Option<LoadedKey>, Pkcs11Error>) -> Result<
        Option<LoadedKey>,
        Pkcs11ErrorView,
    > {
        match out {
            Ok(k) => Ok(k),
            Err(e) => Err(e@),
        }
    }
}

impl Machine for FindKey {
    fn resume(self, reply: Reply) -> (step: Step<FindKey, Result<Option<LoadedKey>, Pkcs11Error>>) {
        match reply {
            Reply::Handles(Ok(handles)) => {
                let count: usize = handles.len();
                if count == 0 {
                    Step::Done(Ok(None))
                } else if count == 1 {
                    Step::Done(Ok(Some(LoadedKey { private_key: handles[0] })))
                } else {
                    let query = priv_label(self.label.as_str());
                    Step::Done(Err(Pkcs11Error::Ambiguous { query, count }))
                }
            },
            Reply::Handles(Err(e)) => Step::Done(Err(Pkcs11Error::Pkcs11(e))),
            _ => vstd::pervasive::unreached(),
        }
    }
}

/// Looks up the private key of the signer `label`.
pub fn find_key_by_label(label: &str) -> (step: Step<
    FindKey,
    Result<Option<LoadedKey>, Pkcs11Error>,
>)
    ensures
        program::runs_as(step, find_key(label@)),
{
    let wanted = priv_label(label);
    let template = store::query_template(ObjectClass::PrivateKey, wanted.as_str());
    Step::Ask(Request::FindObjects(template), FindKey { label: label.to_owned() })
}

// ---------------------------------------------------------------------------
// Removing a key
// ---------------------------------------------------------------------------

/// Destroys every public key object of the signer.
pub open spec fn delete_public(label: Seq<char>) -> Prog<Result<(), Pkcs11ErrorView>> {
    Prog::Ask(
        RequestView::FindObjects(
            store::query(ObjectClass::PublicKey, namespaced(label, PUB_SUFFIX@)),
        ),
        |r: ReplyView|
            match r {
                ReplyView::Handles(Ok(handles)) => store::destroy_all(handles),
                ReplyView::Handles(Err(e)) => Prog::Done(Err(Pkcs11ErrorView::Pkcs11(e))),
                _ => Prog::Stuck,
            },
    )
}

/// What follows once the private key objects are gone.
pub open spec fn then_delete_public(label: Seq<char>) -> spec_fn(
    Result<(), Pkcs11ErrorView>,
) -> Prog<Result<(), Pkcs11ErrorView>> {
    |d: Result<(), Pkcs11ErrorView>|
        match d {
            Ok(_) => delete_public(label),
            Err(e) => Prog::Done(Err(e)),
        }
}

/// Destroys every private key object of the signer, then every public one.
pub open spec fn delete_both(label: Seq<char>) -> Prog<Result<(), Pkcs11ErrorView>> {
    Prog::Ask(
        RequestView::FindObjects(
            store::query(ObjectClass::PrivateKey, namespaced(label, PRIV_SUFFIX@)),
        ),
        |r: ReplyView|
            match r {
                ReplyView::Handles(Ok(handles)) => store::destroy_all(handles).bind(
                    then_delete_public(label),
                ),
                ReplyView::Handles(Err(e)) => Prog::Done(Err(Pkcs11ErrorView::Pkcs11(e))),
                _ => Prog::Stuck,
            },
    )
}

enum DeleteKeyState {
    FindingPrivate,
    DestroyingPrivate(DestroyAll),
    FindingPublic,
    DestroyingPublic(DestroyAll),
}

/// Removes a key.
pub struct DeleteKey {
    label: String,
    state: DeleteKeyState,
}

impl Operation for DeleteKey {
    type Out = Result<(), Pkcs11Error>;

    type OutView = Result<(), Pkcs11ErrorView>;

    closed spec fn prog(self) -> Prog<Result<(), Pkcs11ErrorView>> {
        match self.state {
            DeleteKeyState::FindingPrivate => delete_both(self.label@),
            DeleteKeyState::DestroyingPrivate(m) if m.prog() is Ask => m.prog().bind(
                then_delete_public(self.label@),
            ),
            DeleteKeyState::FindingPublic => delete_public(self.label@),
            DeleteKeyState::DestroyingPublic(m) => m.prog(),
            _ => Prog::Stuck,
        }
    }

    open spec fn out_view(out: Result<(), Pkcs11Error>) -> Result<(), Pkcs11ErrorView> {
        store::unit_view(out)
    }
}

impl DeleteKey {
    fn private_step(
        label: String,
        step: Step<DestroyAll, Result<(), Pkcs11Error>>,
        Ghost(prog): Ghost<Prog<Result<(), Pkcs11ErrorView>>>,
    ) -> (next: Step<DeleteKey, Result<(), Pkcs11Error>>)
        requires
            program::runs_as(step, prog),
        ensures
            program::runs_as(next, prog.bind(then_delete_public(label@))),
    {
        match step {
            Step::Ask(q, m) => Step::Ask(
                q,
                DeleteKey { label, state: DeleteKeyState::DestroyingPrivate(m) },
            ),
            Step::Done(Ok(_)) => {
                let wanted = pub_label(label.as_str());
                let template = store::query_template(ObjectClass::PublicKey, wanted.as_str());
                Step::Ask(
                    Request::FindObjects(template),
                    DeleteKey { label, state: DeleteKeyState::FindingPublic },
                )
            },
            Step::Done(Err(e)) => Step::Done(Err(e)),
        }
    }

    fn public_step(
        label: String,
        step: Step<DestroyAll, Result<(), Pkcs11Error>>,
        Ghost(prog): Ghost<Prog<Result<(), Pkcs11ErrorView>>>,
    ) -> (next: Step<DeleteKey, Result<(), Pkcs11Error>>)
        requires
            program::runs_as(step, prog),
        ensures
            program::runs_as(next, prog),
    {
        match step {
            Step::Ask(q, m) => Step::Ask(
                q,
                DeleteKey { label, state: DeleteKeyState::DestroyingPublic(m) },
            ),
            Step::Done(out) => Step::Done(out),
        }
    }
}

impl Machine for DeleteKey {
    fn resume(self, reply: Reply) -> (step: Step<DeleteKey, Result<(), Pkcs11Error>>) {
        let label = self.label;
        match self.state {
            DeleteKeyState::FindingPrivate => match reply {
                Reply::Handles(Ok(handles)) => {
                    let ghost prog = store::destroy_all(handles@);
                    let step = DestroyAll::start(handles);
                    DeleteKey::private_step(label, step, Ghost(prog))
                },
                Reply::Handles(Err(e)) => Step::Done(Err(Pkcs11Error::Pkcs11(e))),
                _ => vstd::pervasive::unreached(),
            },
            DeleteKeyState::DestroyingPrivate(m) => {
                let ghost prog = (m.prog()->Ask_1)(reply@);
                assert(prog.bind(then_delete_public(label@)) !is Stuck);
                let step = m.resume(reply);
                DeleteKey::private_step(label, step, Ghost(prog))
            },
            DeleteKeyState::FindingPublic => match reply {
                Reply::Handles(Ok(handles)) => {
                    let ghost prog = store::destroy_all(handles@);
                    let step = DestroyAll::start(handles);
                    DeleteKey::public_step(label, step, Ghost(prog))
                },
                Reply::Handles(Err(e)) => Step::Done(Err(Pkcs11Error::Pkcs11(e))),
                _ => vstd::pervasive::unreached(),
            },
            DeleteKeyState::DestroyingPublic(m) => {
                let ghost prog = (m.prog()->Ask_1)(reply@);
                let step = m.resume(reply);
                DeleteKey::public_step(label, step, Ghost(prog))
            },
        }
    }
}

/// Removes the private and public key objects of the signer `label`.
pub fn delete_key(label: &str) -> (step: Step<DeleteKey, Result<(), Pkcs11Error>>)
    ensures
        program::runs_as(step, delete_both(label@)),
{
    let wanted = priv_label(label);
    let template = store::query_template(ObjectClass::PrivateKey, wanted.as_str());
    Step::Ask(
        Request::FindObjects(template),
        DeleteKey { label: label.to_owned(), state: DeleteKeyState::FindingPrivate },
    )
}

// ---------------------------------------------------------------------------
// The encoding of points
// ---------------------------------------------------------------------------

/// How a DER OCTET STRING starts: how many bytes come before its content, and
/// how many the content has. `None` where the length is malformed, or longer
/// than two bytes.
pub open spec fn octet_string_header(input: Seq<u8>) -> Option<(nat, nat)> {
    if input[1] < 0x80 {
        Some((2nat, input[1] as nat))
    } else if input[1] == 0x81 && input.len() >= 3 {
        Some((3nat, input[2] as nat))
    } else if input[1] == 0x82 && input.len() >= 4 {
        Some((4nat, input[2] as nat * 256 + input[3] as nat))
    } else {
        None
    }
}

/// Whether the bytes are a DER OCTET STRING and nothing else.
pub open spec fn is_octet_string(input: Seq<u8>) -> bool {
    &&& input.len() >= 2
    &&& input[0] == 0x04
    &&& octet_string_header(input) matches Some((header, content)) && header + content
        == input.len()
}

/// Whether the bytes are an uncompressed point as it is. It starts with the byte
/// that is also the tag of an OCTET STRING; what is one is taken for one.
pub open spec fn is_bare_point(input: Seq<u8>) -> bool {
    input.len() == 65 && input[0] == 0x04 && !is_octet_string(input)
}

/// What a token's `CKA_EC_POINT` holds: the content of a DER OCTET STRING, or
/// the bytes as they are where they are an uncompressed point or do not start as
/// an OCTET STRING.
pub open spec fn point_bytes(input: Seq<u8>) -> Result<Seq<u8>, Seq<char>> {
    if input.len() == 0 {
        Err("empty EC point"@)
    } else if is_bare_point(input) {
        Ok(input)
    } else if input[0] == 0x04 && input.len() >= 2 {
        match octet_string_header(input) {
            None => Err("malformed DER length on EC point"@),
            Some((header, content)) => if input.len() < header + content {
                Err("DER OCTET STRING truncated on EC point"@)
            } else {
                Ok(input.subrange(header as int, (header + content) as int))
            },
        }
    } else {
        Ok(input)
    }
}

/// Takes a point out of `CKA_EC_POINT`. PKCS#11 wraps points in a DER OCTET
/// STRING; some tokens hand out the bare bytes, and both are taken.
pub fn der_decode_octet_string_lenient(input: &[u8]) -> (res: Result<Vec<u8>, String>)
    ensures
        match res {
            Ok(v) => point_bytes(input@) == Ok::<Seq<u8>, Seq<char>>(v@),
            Err(e) => point_bytes(input@) == Err::<Seq<u8>, Seq<char>>(e@),
        },
{
    let n: usize = input.len();
    if n == 0 {
        return Err("empty EC point".to_owned());
    }
    if input[0] == 0x04 && n >= 2 {
        let header: usize;
        let content: usize;
        if input[1] < 0x80 {
            header = 2;
            content = input[1] as usize;
        } else if input[1] == 0x81 && n >= 3 {
            header = 3;
            content = input[2] as usize;
        } else if input[1] == 0x82 && n >= 4 {
            header = 4;
            content = input[2] as usize * 256 + input[3] as usize;
        } else if n == 65 {
            return Ok(vstd::slice::slice_to_vec(input));
        } else {
            return Err("malformed DER length on EC point".to_owned());
        }
        if n == 65 && header + content != 65 {
            return Ok(vstd::slice::slice_to_vec(input));
        }
        if n < header + content {
            return Err("DER OCTET STRING truncated on EC point".to_owned());
        }
        return Ok(
            vstd::slice::slice_to_vec(
                vstd::slice::slice_subrange(input, header, header + content),
            ),
        );
    }
    Ok(vstd::slice::slice_to_vec(input))
}

/// The DER OCTET STRING with this content, which has less than 65536 bytes.
pub open spec fn octet_string(content: Seq<u8>) -> Seq<u8> {
    let n = content.len();
    if n < 0x80 {
        seq![0x04u8, n as u8] + content
    } else if n < 0x100 {
        seq![0x04u8, 0x81u8, n as u8] + content
    } else {
        seq![0x04u8, 0x82u8, (n / 256) as u8, (n % 256) as u8] + content
    }
}

/// Wraps bytes in a DER OCTET STRING.
pub fn der_encode_octet_string(content: &[u8]) -> (out: Vec<u8>)
    requires
        content@.len() < 0x10000,
    ensures
        out@ == octet_string(content@),
{
    let n: usize = content.len();
    let mut out: Vec<u8> = Vec::new();
    out.push(0x04);
    if n < 0x80 {
        out.push(n as u8);
    } else if n < 0x100 {
        out.push(0x81);
        out.push(n as u8);
    } else {
        out.push(0x82);
        out.push((n / 256) as u8);
        out.push((n % 256) as u8);
    }
    let ghost head = out@;
    let mut i: usize = 0;
    while i < n
        invariant
            i <= n,
            n == content@.len(),
            out@ == head + content@.take(i as int),
        decreases n - i,
    {
        out.push(content[i]);
        assert(out@ =~= head + content@.take(i + 1));
        i = i + 1;
    }
    assert(content@.take(n as int) =~= content@);
    assert(out@ =~= octet_string(content@));
    out
}

/// What is wrapped comes out again. A bare point comes out as it is: every run of
/// bytes that does not start with the tag of an OCTET STRING (a compressed point,
/// say), and an uncompressed point unless its bytes are those of an OCTET STRING.
pub proof fn law_point_round_trip(content: Seq<u8>, bare: Seq<u8>)
    requires
        content.len() < 0x10000,
        bare.len() > 0,
        bare[0] != 0x04 || bare.len() == 65,
        !is_octet_string(bare),
    ensures
        point_bytes(octet_string(content)) == Ok::<Seq<u8>, Seq<char>>(content),
        point_bytes(bare) == Ok::<Seq<u8>, Seq<char>>(bare),
{
    let n = content.len();
    let wrapped = octet_string(content);
    let header: nat = if n < 0x80 {
        2
    } else if n < 0x100 {
        3
    } else {
        4
    };
    assert(octet_string_header(wrapped) == Some((header, n)));
    assert(wrapped.subrange(header as int, (header + n) as int) =~= content);
}

} // verus!
