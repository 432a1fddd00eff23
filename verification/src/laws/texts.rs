//! Numbers, bytes and paths in text.
use crate::bip32;
use crate::bip32::ChildNumber;
use crate::error::{HsmBackendErrorView, Pkcs11ErrorView, SignerErrorView};
use crate::fleet;
use crate::laws::derivations;
use crate::text;
use vstd::prelude::*;
use vstd::string::*;

verus! {

// ---------------------------------------------------------------------------
// Numbers and bytes
// ---------------------------------------------------------------------------

/// Whether every character is a decimal digit.
pub open spec fn all_digits(s: Seq<char>) -> bool {
    forall|i: int| 0 <= i < s.len() ==> '0' <= #[trigger] s[i] && s[i] <= '9'
}

/// A number in decimal is digits that read as that number, without a zero before
/// them.
pub proof fn law_decimal_reads_back(n: nat)
    ensures
        text::decimal(n).len() > 0,
        all_digits(text::decimal(n)),
        text::digits_value(text::decimal(n), 10) == Some(n),
        text::number_value(text::decimal(n), 10) == Some(n),
        n >= 10 ==> text::decimal(n)[0] != '0',
    decreases n,
{
    let t = text::decimal(n);
    let last = text::digit(n % 10);
    assert(last as nat == '0' as nat + n % 10);
    assert(text::digit_value(last, 10) == Some(n % 10));
    if n < 10 {
        assert(t[0] == last);
        assert(t.drop_last() =~= Seq::<char>::empty());
        assert(t.last() == last);
        reveal_with_fuel(text::digits_value, 2);
    } else {
        let high = text::decimal(n / 10);
        law_decimal_reads_back(n / 10);
        assert(t.drop_last() =~= high);
        assert(t.last() == last);
        assert(n / 10 * 10 + n % 10 == n);
        assert(t[0] == high[0]);
        if n / 10 < 10 {
            let first = text::digit(n / 10);
            assert(first as nat == '0' as nat + n / 10);
            assert(high[0] == first);
        }
        assert forall|i: int| 0 <= i < t.len() implies '0' <= #[trigger] t[i] && t[i] <= '9' by {
            if i < high.len() {
                assert(t[i] == high[i]);
            }
        }
    }
    assert('0' <= t[0] && t[0] <= '9');
}

/// Bytes in hexadecimal are two digits for each, the high one first, and read as the
/// bytes they are.
pub proof fn law_hex_reads_back(bytes: Seq<u8>)
    ensures
        text::hex(bytes).len() == 2 * bytes.len(),
        forall|k: int|
            #![trigger bytes[k]]
            0 <= k < bytes.len() ==> text::digit_value(text::hex(bytes)[2 * k], 16) == Some(
                (bytes[k] / 16) as nat,
            ) && text::digit_value(text::hex(bytes)[2 * k + 1], 16) == Some((bytes[k] % 16) as nat),
        forall|i: int|
            0 <= i < text::hex(bytes).len() ==> !('A' <= #[trigger] text::hex(bytes)[i]
                && text::hex(bytes)[i] <= 'Z'),
    decreases bytes.len(),
{
    if bytes.len() != 0 {
        let rest = bytes.drop_last();
        let t = text::hex(bytes);
        let before = text::hex(rest);
        law_hex_reads_back(rest);
        let high = text::hex_digit((bytes.last() / 16) as nat);
        let low = text::hex_digit((bytes.last() % 16) as nat);
        lemma_hex_digit((bytes.last() / 16) as nat);
        lemma_hex_digit((bytes.last() % 16) as nat);
        assert forall|k: int|
            #![trigger bytes[k]]
            0 <= k < bytes.len() implies text::digit_value(t[2 * k], 16) == Some(
            (bytes[k] / 16) as nat,
        ) && text::digit_value(t[2 * k + 1], 16) == Some((bytes[k] % 16) as nat) by {
            if k < rest.len() {
                assert(rest[k] == bytes[k]);
                assert(t[2 * k] == before[2 * k]);
                assert(t[2 * k + 1] == before[2 * k + 1]);
            } else {
                assert(t[2 * k] == high);
                assert(t[2 * k + 1] == low);
            }
        }
        assert forall|i: int| 0 <= i < t.len() implies !('A' <= #[trigger] t[i] && t[i] <= 'Z') by {
            if i < before.len() {
                assert(t[i] == before[i]);
            } else if i == before.len() {
                assert(t[i] == high);
            } else {
                assert(t[i] == low);
            }
        }
    }
}

proof fn lemma_hex_digit(d: nat)
    requires
        d < 16,
    ensures
        text::digit_value(text::hex_digit(d), 16) == Some(d),
        !('A' <= text::hex_digit(d) && text::hex_digit(d) <= 'Z'),
{
    if d < 10 {
        assert(text::digit(d) as nat == '0' as nat + d);
    } else {
        assert(text::hex_digit(d) as nat == 'a' as nat + d - 10);
    }
}

/// A seed in hexadecimal is read byte for byte: its bytes are as many as half its
/// digits, and each is sixteen times what its first digit counts and what its second
/// one does.
pub proof fn law_seed_text_is_read(s: Seq<char>)
    ensures
        fleet::hex_bytes(s) matches Ok(bytes) ==> {
            let t = text::trimmed(s);
            &&& 2 * bytes.len() == t.len()
            &&& forall|k: int|
                0 <= k < bytes.len() ==> {
                    let high = text::digit_value(t[2 * k], 16);
                    let low = text::digit_value(t[2 * k + 1], 16);
                    high is Some && low is Some && #[trigger] bytes[k] == 16 * high->Some_0
                        + low->Some_0
                }
        },
        fleet::hex_bytes(s) is Ok <==> text::trimmed(s).len() % 2 == 0 && forall|i: int|
            0 <= i < text::trimmed(s).len() ==> text::digit_value(
                #[trigger] text::trimmed(s)[i],
                16,
            ) is Some,
{
    let t = text::trimmed(s);
    if fleet::all_hex(t) {
        assert(vstd::utf8::is_ascii_chars(t)) by {
            assert forall|i: int| 0 <= i < t.len() implies 0 <= #[trigger] t[i] as nat && (
            t[i] as nat) < 128 by {
                assert(text::digit_value(t[i], 16) is Some);
            }
        }
        vstd::utf8::is_ascii_chars_encode_utf8(t);
    }
    if let Ok(bytes) = fleet::hex_bytes(s) {
        assert forall|k: int| 0 <= k < bytes.len() implies {
            let high = text::digit_value(t[2 * k], 16);
            let low = text::digit_value(t[2 * k + 1], 16);
            high is Some && low is Some && #[trigger] bytes[k] == 16 * high->Some_0 + low->Some_0
        } by {
            assert(text::digit_value(t[2 * k], 16) is Some);
            assert(text::digit_value(t[2 * k + 1], 16) is Some);
        }
    }
}

// ---------------------------------------------------------------------------
// Paths
// ---------------------------------------------------------------------------

/// Whether a text has no slash in it.
spec fn no_slash(s: Seq<char>) -> bool {
    forall|i: int| 0 <= i < s.len() ==> #[trigger] s[i] != '/'
}

proof fn lemma_one_piece(s: Seq<char>)
    requires
        no_slash(s),
    ensures
        bip32::slash_pieces(s) == seq![s],
    decreases s.len(),
{
    if s.len() == 0 {
        assert(s =~= Seq::<char>::empty());
    } else {
        let rest = s.drop_last();
        assert(no_slash(rest)) by {
            assert forall|i: int| 0 <= i < rest.len() implies #[trigger] rest[i] != '/' by {
                assert(rest[i] == s[i]);
            }
        }
        lemma_one_piece(rest);
        assert(s[s.len() - 1] != '/');
        assert(rest.push(s.last()) =~= s);
        assert(bip32::slash_pieces(s) =~= seq![s]);
    }
}

proof fn lemma_one_piece_more(before: Seq<char>, piece: Seq<char>)
    requires
        no_slash(piece),
    ensures
        bip32::slash_pieces(before + seq!['/'] + piece) == bip32::slash_pieces(before).push(piece),
    decreases piece.len(),
{
    let s = before + seq!['/'] + piece;
    if piece.len() == 0 {
        assert(s.drop_last() =~= before);
        assert(s.last() == '/');
        assert(piece =~= Seq::<char>::empty());
    } else {
        let rest = piece.drop_last();
        assert(no_slash(rest)) by {
            assert forall|i: int| 0 <= i < rest.len() implies #[trigger] rest[i] != '/' by {
                assert(rest[i] == piece[i]);
            }
        }
        lemma_one_piece_more(before, rest);
        assert(s.drop_last() =~= before + seq!['/'] + rest);
        assert(s.last() == piece.last());
        assert(piece[piece.len() - 1] != '/');
        assert(rest.push(piece.last()) =~= piece);
        let pieces = bip32::slash_pieces(before).push(rest);
        assert(bip32::slash_pieces(s) == pieces.drop_last().push(pieces.last().push(s.last())));
        assert(pieces.drop_last() =~= bip32::slash_pieces(before));
    }
}

/// A step in words reads as its number: the index, with a tick behind it just where
/// the step is hardened.
pub proof fn law_step_reads_back(child: ChildNumber)
    requires
        child.valid(),
    ensures
        bip32::piece_word(child.text()) matches Ok(word) && word == derivations::child_value(child),
        child is Hardened <==> child.text().last() == '\'',
{
    lemma_step_text(child);
}

proof fn lemma_step_text(child: ChildNumber)
    requires
        child.valid(),
    ensures
        bip32::piece_word(child.text()) matches Ok(word) && word == derivations::child_value(child),
        child is Hardened <==> child.text().last() == '\'',
        no_slash(child.text()),
        child.text().len() > 0,
        '0' <= child.text()[0] && child.text()[0] <= '9',
{
    reveal_strlit("'");
    let t = child.text();
    match child {
        ChildNumber::Normal { index } => {
            law_decimal_reads_back(index as nat);
            assert(t[t.len() - 1] == t.last());
        },
        ChildNumber::Hardened { index } => {
            law_decimal_reads_back(index as nat);
            let digits = text::decimal(index as nat);
            assert(t.drop_last() =~= digits);
            assert(t[0] == digits[0]);
            assert forall|i: int| 0 <= i < t.len() implies #[trigger] t[i] != '/' by {
                if i < digits.len() {
                    assert(t[i] == digits[i]);
                }
            }
        },
    }
}

proof fn lemma_path_pieces(path: Seq<ChildNumber>)
    requires
        path.len() > 0,
        forall|i: int| 0 <= i < path.len() ==> (#[trigger] path[i]).valid(),
    ensures
        bip32::slash_pieces(bip32::path_text(path)) == path.map_values(|c: ChildNumber| c.text()),
        bip32::path_text(path).len() > 0,
        '0' <= bip32::path_text(path)[0] && bip32::path_text(path)[0] <= '9',
    decreases path.len(),
{
    let f = |c: ChildNumber| c.text();
    let t = bip32::path_text(path);
    lemma_step_text(path[path.len() - 1]);
    if path.len() == 1 {
        lemma_one_piece(t);
        assert(seq![t] =~= path.map_values(f));
    } else {
        reveal_strlit("/");
        let rest = path.drop_last();
        assert forall|i: int| 0 <= i < rest.len() implies (#[trigger] rest[i]).valid() by {
            assert(path[i] == rest[i]);
        }
        lemma_path_pieces(rest);
        lemma_one_piece_more(bip32::path_text(rest), path.last().text());
        assert("/"@ =~= seq!['/']);
        assert(bip32::slash_pieces(t) =~= path.map_values(f));
        assert(t[0] == bip32::path_text(rest)[0]);
    }
}

proof fn lemma_words(path: Seq<ChildNumber>)
    requires
        forall|i: int| 0 <= i < path.len() ==> (#[trigger] path[i]).valid(),
    ensures
        bip32::piece_words(path.map_values(|c: ChildNumber| c.text())) matches Ok(words) && {
            &&& words.len() == path.len()
            &&& forall|i: int|
                0 <= i < path.len() ==> #[trigger] words[i] == derivations::child_value(path[i])
        },
    decreases path.len(),
{
    let f = |c: ChildNumber| c.text();
    if path.len() != 0 {
        let rest = path.drop_last();
        assert forall|i: int| 0 <= i < rest.len() implies (#[trigger] rest[i]).valid() by {
            assert(path[i] == rest[i]);
        }
        lemma_words(rest);
        assert(path.map_values(f).drop_last() =~= rest.map_values(f));
        assert(path.map_values(f).last() == path[path.len() - 1].text());
        lemma_step_text(path[path.len() - 1]);
    }
}

/// A path in words reads back as the path.
pub proof fn law_path_text_reads_back(path: Seq<ChildNumber>)
    requires
        forall|i: int| 0 <= i < path.len() ==> (#[trigger] path[i]).valid(),
    ensures
        bip32::path_value(bip32::path_text(path)) == Ok::<Seq<ChildNumber>, Seq<char>>(path),
{
    let t = bip32::path_text(path);
    if path.len() == 0 {
        assert(bip32::children(Seq::empty()) =~= path);
    } else {
        reveal_strlit("m");
        reveal_strlit("m/");
        lemma_path_pieces(path);
        lemma_words(path);
        assert("m"@[0] == 'm');
        assert("m/"@[0] == 'm');
        if "m/"@.is_prefix_of(t) {
            assert("m/"@[0] == t[0]);
        }
        let words = bip32::path_words(t)->Ok_0;
        assert forall|i: int| 0 <= i < path.len() implies #[trigger] bip32::children(words)[i]
            == path[i] by {
            assert(words[i] == derivations::child_value(path[i]));
            assert(path[i].valid());
        }
        assert(bip32::children(words) =~= path);
    }
}

/// What a path in text gives is a step for each of its words, in their order: the
/// normal child with that index below two to the thirty-first, and from there on the
/// hardened one.
pub proof fn law_path_is_its_words(s: Seq<char>)
    ensures
        match (bip32::path_words(s), bip32::path_value(s)) {
            (Ok(words), Ok(path)) => {
                &&& path.len() == words.len()
                &&& forall|i: int|
                    0 <= i < path.len() ==> derivations::child_value(#[trigger] path[i])
                        == words[i] && (path[i] is Hardened <==> words[i] >= 0x8000_0000)
            },
            (Err(a), Err(b)) => a == b,
            _ => false,
        },
{
}

// ---------------------------------------------------------------------------
// Errors
// ---------------------------------------------------------------------------

/// Whether a text ends so.
pub open spec fn ends_with(t: Seq<char>, end: Seq<char>) -> bool {
    exists|start: Seq<char>| t == #[trigger] (start + end)
}

/// A violation of the policy reaches a signing coordinator as one, with the rule as
/// it is; a derivation that fails, or that nobody supports, reaches it as a failure
/// to sign, with the reason; all else as a failure of the backend, in the error's own
/// words.
pub proof fn law_coordinator_is_told(e: Pkcs11ErrorView)
    ensures
        e matches Pkcs11ErrorView::PolicyViolation(rule) ==> (
        e.signer_error() matches SignerErrorView::PolicyViolation { id, rule: told } && told == rule
            && id == "pkcs11"@),
        e matches Pkcs11ErrorView::DerivationUnsupported { strategy, reason } ==> (
        e.signer_error() matches SignerErrorView::SigningFailed { id, reason: told } && told
            == strategy + ": "@ + reason && id == "pkcs11"@),
        e matches Pkcs11ErrorView::HsmBackend(HsmBackendErrorView::Derivation(reason)) ==> (
        e.signer_error() matches SignerErrorView::SigningFailed { id, reason: told } && told
            == reason && id == "pkcs11"@),
        !(e is PolicyViolation || e is DerivationUnsupported || (
        e matches Pkcs11ErrorView::HsmBackend(inner) && inner is Derivation)) ==> e.signer_error()
            == SignerErrorView::Backend(e.text()),
{
}

/// An error in words ends with the words of what caused it.
pub proof fn law_errors_tell_their_cause(e: Pkcs11ErrorView)
    ensures
        match e {
            Pkcs11ErrorView::LibraryLoad { path, source } => ends_with(
                e.text(),
                path + ": "@ + source.message,
            ),
            Pkcs11ErrorView::Initialize(cause) => ends_with(e.text(), cause.message),
            Pkcs11ErrorView::LoginFailed(cause) => ends_with(e.text(), cause.message),
            Pkcs11ErrorView::Pkcs11(cause) => ends_with(e.text(), cause.message),
            Pkcs11ErrorView::SlotNotFound(t) => ends_with(e.text(), t),
            Pkcs11ErrorView::ObjectNotFound(t) => ends_with(e.text(), t),
            Pkcs11ErrorView::InvalidConfig(t) => ends_with(e.text(), t),
            Pkcs11ErrorView::PolicyViolation(t) => ends_with(e.text(), t),
            Pkcs11ErrorView::Secp256k1(t) => ends_with(e.text(), t),
            Pkcs11ErrorView::Bitcoin(t) => ends_with(e.text(), t),
            Pkcs11ErrorView::Serialization(t) => ends_with(e.text(), t),
            Pkcs11ErrorView::Backend(t) => ends_with(e.text(), t),
            Pkcs11ErrorView::DerivationUnsupported { strategy, reason } => ends_with(
                e.text(),
                strategy + ": "@ + reason,
            ),
            Pkcs11ErrorView::Env { var: _, reason } => ends_with(e.text(), reason),
            Pkcs11ErrorView::HsmBackend(HsmBackendErrorView::Pkcs11(cause)) => ends_with(
                e.text(),
                cause.message,
            ),
            Pkcs11ErrorView::HsmBackend(HsmBackendErrorView::Derivation(t)) => ends_with(
                e.text(),
                t,
            ),
            Pkcs11ErrorView::HsmBackend(HsmBackendErrorView::MetadataError(t)) => ends_with(
                e.text(),
                t,
            ),
            Pkcs11ErrorView::HsmBackend(HsmBackendErrorView::KeyNotFound { label }) => ends_with(
                e.text(),
                label,
            ),
            _ => true,
        },
{
    match e {
        Pkcs11ErrorView::LibraryLoad { path, source } => {
            let start = "failed to load PKCS#11 library at "@;
            assert(e.text() =~= start + (path + ": "@ + source.message));
        },
        Pkcs11ErrorView::DerivationUnsupported { strategy, reason } => {
            let start = "BIP-32 derivation unsupported by "@;
            assert(e.text() =~= start + (strategy + ": "@ + reason));
        },
        Pkcs11ErrorView::Env { var, reason } => {
            let start = "environment variable "@ + var + " missing or invalid: "@;
            assert(e.text() == start + reason);
        },
        _ => {},
    }
}

} // verus!
