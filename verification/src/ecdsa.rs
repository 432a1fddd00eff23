//! ECDSA signatures that bitcoin nodes accept.
//!
//! A token signs a digest with `CKM_ECDSA` and returns the bare numbers
//! `r || s`. Of the two values of `s` that both verify, nodes take the lower
//! one only (BIP-146), so the library brings every signature to that form.
use crate::error::{Pkcs11Error, Pkcs11ErrorView};
use crate::outside;
use crate::program;
use crate::program::{Machine, Operation, Prog, Reply, ReplyView, Request, RequestView, Step};
use crate::text;
use crate::token::ObjectHandle;
use vstd::prelude::*;
use vstd::string::*;

verus! {

/// The order of the group that secp256k1 generates.
pub open spec fn group_order() -> nat {
    0xFFFFFFFFFFFFFFFFFFFFFFFFFFFFFFFEBAAEDCE6AF48A03BBFD25E8CD0364141nat
}

/// The number that bytes write, most significant first.
pub open spec fn be_value(bytes: Seq<u8>) -> nat
    decreases bytes.len(),
{
    if bytes.len() == 0 {
        0
    } else {
        be_value(bytes.drop_last()) * 256 + bytes.last() as nat
    }
}

/// The last `len` bytes of a number, most significant first.
pub open spec fn be_bytes(n: nat, len: nat) -> Seq<u8>
    decreases len,
{
    if len == 0 {
        Seq::empty()
    } else {
        be_bytes(n / 256, (len - 1) as nat).push((n % 256) as u8)
    }
}

/// Whether the bytes are a signature in compact form: two numbers below the
/// group order.
pub open spec fn valid_compact(bytes: Seq<u8>) -> bool {
    &&& bytes.len() == 64
    &&& be_value(bytes.take(32)) < group_order()
    &&& be_value(bytes.skip(32)) < group_order()
}

/// The lower of the two values of `s` that verify alike.
pub open spec fn low_value(s: nat) -> nat {
    if s > group_order() / 2 {
        (group_order() - s) as nat
    } else {
        s
    }
}

/// A signature with the lower `s`.
pub open spec fn low_s(compact: Seq<u8>) -> Seq<u8> {
    compact.take(32) + be_bytes(low_value(be_value(compact.skip(32))), 32)
}

// ---------------------------------------------------------------------------
// What the lower form is
// ---------------------------------------------------------------------------

/// How many numbers `len` bytes can write.
spec fn span(len: nat) -> nat
    decreases len,
{
    if len == 0 {
        1
    } else {
        256 * span((len - 1) as nat)
    }
}

proof fn lemma_be_bytes(n: nat, len: nat)
    requires
        n < span(len),
    ensures
        be_bytes(n, len).len() == len,
        be_value(be_bytes(n, len)) == n,
    decreases len,
{
    if len > 0 {
        let shorter = (len - 1) as nat;
        assert(n / 256 < span(shorter)) by (nonlinear_arith)
            requires
                n < 256 * span(shorter),
        ;
        lemma_be_bytes(n / 256, shorter);
        assert(be_bytes(n, len).drop_last() =~= be_bytes(n / 256, shorter));
        assert(n / 256 * 256 + n % 256 == n) by (nonlinear_arith);
    }
}

proof fn lemma_be_value(bytes: Seq<u8>)
    ensures
        be_bytes(be_value(bytes), bytes.len()) == bytes,
    decreases bytes.len(),
{
    if bytes.len() > 0 {
        let high = be_value(bytes.drop_last());
        let low = bytes.last() as nat;
        lemma_be_value(bytes.drop_last());
        assert((high * 256 + low) / 256 == high && (high * 256 + low) % 256 == low)
            by (nonlinear_arith)
            requires
                low < 256,
        ;
        assert(be_bytes(be_value(bytes), bytes.len()) =~= bytes);
    } else {
        assert(bytes =~= Seq::<u8>::empty());
    }
}

/// The lower form of a signature is a signature with the same first number; its
/// second number is at most half the group order, and is the one that came or
/// its negative. What is in the lower form already stays as it is, so it makes
/// no difference whether the form is taken once or twice.
pub proof fn law_low_s(compact: Seq<u8>)
    requires
        valid_compact(compact),
    ensures
        valid_compact(low_s(compact)),
        low_s(compact).take(32) == compact.take(32),
        be_value(low_s(compact).skip(32)) <= group_order() / 2,
        be_value(low_s(compact).skip(32)) == be_value(compact.skip(32)) || be_value(
            low_s(compact).skip(32),
        ) + be_value(compact.skip(32)) == group_order(),
        be_value(compact.skip(32)) <= group_order() / 2 ==> low_s(compact) == compact,
        low_s(low_s(compact)) == low_s(compact),
{
    let s = be_value(compact.skip(32));
    let t = low_value(s);
    assert(group_order() < span(32)) by {
        reveal_with_fuel(span, 33);
    }
    lemma_be_bytes(t, 32);
    let low = low_s(compact);
    assert(low.take(32) =~= compact.take(32));
    assert(low.skip(32) =~= be_bytes(t, 32));
    lemma_be_value(low.skip(32));
    assert(low_s(low) =~= low);
    if s <= group_order() / 2 {
        lemma_be_value(compact.skip(32));
        assert(low =~= compact);
    }
}

// ---------------------------------------------------------------------------
// Signing
// ---------------------------------------------------------------------------

/// What becomes of the bytes that a token returns for a signature.
pub open spec fn canonical(raw: Seq<u8>) -> Result<Seq<u8>, Pkcs11ErrorView> {
    if raw.len() != 64 {
        Err(
            Pkcs11ErrorView::Backend(
                "PKCS#11 ECDSA returned "@ + text::decimal(raw.len())
                    + " bytes, expected 64 (r || s)"@,
            ),
        )
    } else if !valid_compact(raw) {
        Err(Pkcs11ErrorView::Secp256k1("malformed signature"@))
    } else {
        Ok(low_s(raw))
    }
}

/// Brings the bytes that a token returned into the form that nodes accept.
pub fn canonical_signature(raw: &Vec<u8>) -> (res: Result<[u8; 64], Pkcs11Error>)
    ensures
        match res {
            Ok(sig) => canonical(raw@) == Ok::<Seq<u8>, Pkcs11ErrorView>(sig@),
            Err(e) => canonical(raw@) == Err::<Seq<u8>, Pkcs11ErrorView>(e@),
        },
{
    if raw.len() != 64 {
        return Err(
            Pkcs11Error::Backend(
                text::join3(
                    "PKCS#11 ECDSA returned ",
                    text::decimal_text(raw.len() as u64).as_str(),
                    " bytes, expected 64 (r || s)",
                ),
            ),
        );
    }
    match outside::parse_compact(raw.as_slice()) {
        Ok(sig) => Ok(outside::normalize_s(&sig)),
        Err(e) => Err(Pkcs11Error::Secp256k1(e)),
    }
}

/// Has a token sign a digest, and brings the signature into the lower form.
pub open spec fn low_s_signing(key: ObjectHandle, digest: Seq<u8>) -> Prog<
    Result<Seq<u8>, Pkcs11ErrorView>,
> {
    Prog::Ask(
        RequestView::SignEcdsa(key, digest),
        |r: ReplyView|
            match r {
                ReplyView::Signature(Ok(raw)) => Prog::Done(canonical(raw)),
                ReplyView::Signature(Err(e)) => Prog::Done(Err(Pkcs11ErrorView::Pkcs11(e))),
                _ => Prog::Stuck,
            },
    )
}

/// Has a token sign a digest.
pub struct SignLowS {
    key: ObjectHandle,
    digest: [u8; 32],
}

/// What a result says.
pub open spec fn signature_view(r: Result<[u8; 64], Pkcs11Error>) -> Result<
    Seq<u8>,
    Pkcs11ErrorView,
> {
    match r {
        Ok(sig) => Ok(sig@),
        Err(e) => Err(e@),
    }
}

impl Operation for SignLowS {
    type Out = Result<[u8; 64], Pkcs11Error>;

    type OutView = Result<Seq<u8>, Pkcs11ErrorView>;

    closed spec fn prog(self) -> Prog<Result<Seq<u8>, Pkcs11ErrorView>> {
        low_s_signing(self.key, self.digest@)
    }

    open spec fn out_view(out: Result<[u8; 64], Pkcs11Error>) -> Result<Seq<u8>, Pkcs11ErrorView> {
        signature_view(out)
    }
}

impl Machine for SignLowS {
    fn resume(self, reply: Reply) -> (step: Step<SignLowS, Result<[u8; 64], Pkcs11Error>>) {
        match reply {
            Reply::Signature(Ok(raw)) => Step::Done(canonical_signature(&raw)),
            Reply::Signature(Err(e)) => Step::Done(Err(Pkcs11Error::Pkcs11(e))),
            _ => vstd::pervasive::unreached(),
        }
    }
}

/// Has the token sign a digest with a private key, and brings the signature
/// into the form that nodes accept.
pub fn sign_with_low_s(key: ObjectHandle, digest: [u8; 32]) -> (step: Step<
    SignLowS,
    Result<[u8; 64], Pkcs11Error>,
>)
    ensures
        program::runs_as(step, low_s_signing(key, digest@)),
        step is Ask,
{
    Step::Ask(Request::SignEcdsa(key, digest), SignLowS { key, digest })
}

} // verus!
