//! BIP-32 values: child numbers, derivation paths, fingerprints, extended
//! public keys, and the networks they are for.
use crate::text;
use vstd::prelude::*;
use vstd::string::*;

verus! {

// ---------------------------------------------------------------------------
// Child numbers
// ---------------------------------------------------------------------------

/// One step of a derivation.
#[derive(Clone, Copy, Debug, PartialEq, Eq, Structural)]
pub enum ChildNumber {
    /// A child that the parent's public key is enough to derive.
    Normal {
        /// The child's index.
        index: u32,
    },
    /// A child that needs the parent's private key.
    Hardened {
        /// The child's index.
        index: u32,
    },
}

/// The bit that marks a hardened child in an index word.
pub const HARDENED_BIT: u32 = 0x8000_0000;

impl ChildNumber {
    /// The index is one that BIP-32 knows: below two to the thirty-first.
    pub open spec fn valid(self) -> bool {
        match self {
            ChildNumber::Normal { index } => index < HARDENED_BIT,
            ChildNumber::Hardened { index } => index < HARDENED_BIT,
        }
    }

    /// The child as one word: the index, with the high bit set where it is
    /// hardened.
    pub open spec fn word(self) -> u32 {
        match self {
            ChildNumber::Normal { index } => index,
            ChildNumber::Hardened { index } => index | HARDENED_BIT,
        }
    }

    /// The child that a word stands for.
    pub open spec fn of_word(word: u32) -> ChildNumber {
        if word >= HARDENED_BIT {
            ChildNumber::Hardened { index: (word - HARDENED_BIT) as u32 }
        } else {
            ChildNumber::Normal { index: word }
        }
    }

    /// The child as one word.
    pub fn to_word(self) -> (w: u32)
        ensures
            w == self.word(),
    {
        match self {
            ChildNumber::Normal { index } => index,
            ChildNumber::Hardened { index } => index | HARDENED_BIT,
        }
    }

    /// The child that `word` stands for.
    pub fn from_word(word: u32) -> (c: ChildNumber)
        ensures
            c == ChildNumber::of_word(word),
    {
        if word >= HARDENED_BIT {
            ChildNumber::Hardened { index: word - HARDENED_BIT }
        } else {
            ChildNumber::Normal { index: word }
        }
    }

    /// The child in words: the index, with a tick behind it where it is
    /// hardened.
    pub open spec fn text(self) -> Seq<char> {
        match self {
            ChildNumber::Normal { index } => text::decimal(index as nat),
            ChildNumber::Hardened { index } => text::decimal(index as nat) + "'"@,
        }
    }

    /// The child in words.
    pub fn to_string(&self) -> (t: String)
        ensures
            t@ == self.text(),
    {
        match *self {
            ChildNumber::Normal { index } => text::decimal_text(index as u64),
            ChildNumber::Hardened { index } => text::join2(
                text::decimal_text(index as u64).as_str(),
                "'",
            ),
        }
    }
}

/// A child number is what its word stands for, and a word is that of the child
/// it stands for: nothing is lost when an index travels as a word.
pub proof fn law_child_word_round_trip(c: ChildNumber, word: u32)
    requires
        c.valid(),
    ensures
        ChildNumber::of_word(c.word()) == c,
        ChildNumber::of_word(word).word() == word,
        ChildNumber::of_word(word).valid(),
{
    match c {
        ChildNumber::Hardened { index } => {
            assert(index | HARDENED_BIT == index + HARDENED_BIT) by (bit_vector)
                requires
                    index < HARDENED_BIT,
            ;
        },
        ChildNumber::Normal { index } => {},
    }
    if word >= HARDENED_BIT {
        let low: u32 = (word - HARDENED_BIT) as u32;
        assert(low | HARDENED_BIT == low + HARDENED_BIT) by (bit_vector)
            requires
                low < HARDENED_BIT,
        ;
    }
}

// ---------------------------------------------------------------------------
// Derivation paths
// ---------------------------------------------------------------------------

/// A derivation path, from the key it starts at.
#[derive(Debug)]
pub struct DerivationPath {
    /// The steps, first to last.
    pub segments: Vec<ChildNumber>,
}

impl View for DerivationPath {
    type V = Seq<ChildNumber>;

    open spec fn view(&self) -> Seq<ChildNumber> {
        self.segments@
    }
}

/// The path in words: the steps with a slash between them.
pub open spec fn path_text(path: Seq<ChildNumber>) -> Seq<char>
    decreases path.len(),
{
    if path.len() == 0 {
        Seq::empty()
    } else if path.len() == 1 {
        path[0].text()
    } else {
        path_text(path.drop_last()) + "/"@ + path.last().text()
    }
}

impl Clone for DerivationPath {
    fn clone(&self) -> (p: DerivationPath)
        ensures
            p@ == self@,
    {
        DerivationPath { segments: vstd::slice::slice_to_vec(self.segments.as_slice()) }
    }
}

impl DerivationPath {
    /// A path with no steps.
    pub fn empty() -> (p: DerivationPath)
        ensures
            p@ == Seq::<ChildNumber>::empty(),
    {
        DerivationPath { segments: Vec::new() }
    }

    /// The path in words.
    pub fn to_string(&self) -> (t: String)
        ensures
            t@ == path_text(self@),
    {
        let n: usize = self.segments.len();
        let mut t = String::new();
        let mut i: usize = 0;
        while i < n
            invariant
                i <= n,
                n == self.segments@.len(),
                t@ == path_text(self@.take(i as int)),
            decreases n - i,
        {
            let step = self.segments[i].to_string();
            proof {
                let longer = self@.take(i + 1);
                assert(longer.drop_last() =~= self@.take(i as int));
                assert(longer.last() == self@[i as int]);
            }
            if i > 0 {
                t.append("/");
                t.append(step.as_str());
            } else {
                t = step;
            }
            i = i + 1;
        }
        assert(self@.take(n as int) =~= self@);
        t
    }

    /// Whether the two paths take the same steps.
    pub fn same(&self, other: &DerivationPath) -> (b: bool)
        ensures
            b == (self@ == other@),
    {
        if self.segments.len() != other.segments.len() {
            return false;
        }
        let n: usize = self.segments.len();
        let mut i: usize = 0;
        while i < n
            invariant
                i <= n,
                n == self@.len(),
                n == other@.len(),
                self@.take(i as int) =~= other@.take(i as int),
            decreases n - i,
        {
            if self.segments[i] != other.segments[i] {
                assert(self@[i as int] != other@[i as int]);
                return false;
            }
            assert(self@.take(i + 1) =~= self@.take(i as int).push(self@[i as int]));
            assert(other@.take(i + 1) =~= other@.take(i as int).push(other@[i as int]));
            i = i + 1;
        }
        assert(self@ =~= self@.take(n as int));
        assert(other@ =~= other@.take(n as int));
        true
    }
}

// ---------------------------------------------------------------------------
// Paths in text
// ---------------------------------------------------------------------------

/// The pieces of `s` between slashes.
pub open spec fn slash_pieces(s: Seq<char>) -> Seq<Seq<char>>
    decreases s.len(),
{
    if s.len() == 0 {
        seq![Seq::empty()]
    } else {
        let before = slash_pieces(s.drop_last());
        if s.last() == '/' {
            before.push(Seq::empty())
        } else {
            before.drop_last().push(before.last().push(s.last()))
        }
    }
}

/// The word of the step that `piece` writes: a number below two to the
/// thirty-first, with a tick or an `h` behind it where the step is hardened. Or
/// why it writes none.
pub open spec fn piece_word(piece: Seq<char>) -> Result<u32, Seq<char>> {
    let hardened = piece.len() > 0 && (piece.last() == '\'' || piece.last() == 'h');
    let number = if hardened {
        piece.drop_last()
    } else {
        piece
    };
    match text::number_value(number, 10) {
        Some(n) if n < HARDENED_BIT => if hardened {
            Ok((n + HARDENED_BIT) as u32)
        } else {
            Ok(n as u32)
        },
        Some(n) if n <= u32::MAX => Err(
            "child number "@ + text::decimal(n) + " is invalid (not within [0, 2^31 - 1])"@,
        ),
        _ => Err("invalid child number format"@),
    }
}

/// The words of the steps that the pieces write, or why the first that writes
/// none does not.
pub open spec fn piece_words(pieces: Seq<Seq<char>>) -> Result<Seq<u32>, Seq<char>>
    decreases pieces.len(),
{
    if pieces.len() == 0 {
        Ok(Seq::empty())
    } else {
        match piece_words(pieces.drop_last()) {
            Err(e) => Err(e),
            Ok(before) => match piece_word(pieces.last()) {
                Err(e) => Err(e),
                Ok(w) => Ok(before.push(w)),
            },
        }
    }
}

/// The words of the path that `s` writes: nothing, `m` or `m/` for no steps,
/// else the steps with slashes between them, behind an optional `m/`. Or why it
/// writes none.
pub open spec fn path_words(s: Seq<char>) -> Result<Seq<u32>, Seq<char>> {
    if s.len() == 0 || s == "m"@ || s == "m/"@ {
        Ok(Seq::empty())
    } else {
        match text::behind_prefix(s, "m/"@) {
            Some(rest) => piece_words(slash_pieces(rest)),
            None => piece_words(slash_pieces(s)),
        }
    }
}

/// Calls `bitcoin::bip32::DerivationPath::from_str` and takes the path as its
/// index words (`to_u32_vec`). The grammar it reads, and the words in which it
/// refuses what is not of it, are [`path_words`].
#[verifier::external_body]
fn parse_path_words(s: &str) -> (res: Result<Vec<u32>, String>)
    ensures
        match res {
            Ok(words) => path_words(s@) == Ok::<Seq<u32>, Seq<char>>(words@),
            Err(e) => path_words(s@) == Err::<Seq<u32>, Seq<char>>(e@),
        },
{
    <bitcoin::bip32::DerivationPath as std::str::FromStr>::from_str(s)
        .map(|p| p.to_u32_vec())
        .map_err(|e| e.to_string())
}

/// The children that the words stand for.
pub open spec fn children(words: Seq<u32>) -> Seq<ChildNumber> {
    words.map_values(|w: u32| ChildNumber::of_word(w))
}

/// What `s` gives as a path, or the words that refuse it.
pub open spec fn path_value(s: Seq<char>) -> Result<Seq<ChildNumber>, Seq<char>> {
    match path_words(s) {
        Ok(words) => Ok(children(words)),
        Err(e) => Err(e),
    }
}

impl DerivationPath {
    /// Reads a path such as `m/48'/1'/0'/2'`.
    pub fn parse(s: &str) -> (res: Result<DerivationPath, String>)
        ensures
            match res {
                Ok(p) => path_value(s@) == Ok::<Seq<ChildNumber>, Seq<char>>(p@),
                Err(e) => path_value(s@) == Err::<Seq<ChildNumber>, Seq<char>>(e@),
            },
    {
        match parse_path_words(s) {
            Err(e) => Err(e),
            Ok(words) => {
                let n: usize = words.len();
                let mut segments: Vec<ChildNumber> = Vec::new();
                let mut i: usize = 0;
                while i < n
                    invariant
                        i <= n,
                        n == words@.len(),
                        segments@ == children(words@.take(i as int)),
                    decreases n - i,
                {
                    segments.push(ChildNumber::from_word(words[i]));
                    assert(segments@ =~= children(words@.take(i + 1)));
                    i = i + 1;
                }
                assert(words@.take(n as int) =~= words@);
                Ok(DerivationPath { segments })
            },
        }
    }
}

// ---------------------------------------------------------------------------
// Fixed-size byte values
// ---------------------------------------------------------------------------

/// The first four bytes of a key's HASH160.
#[derive(Clone, Copy, Debug, PartialEq, Eq)]
pub struct Fingerprint {
    /// The bytes.
    pub bytes: [u8; 4],
}

/// A compressed secp256k1 public key.
#[derive(Clone, Copy, Debug, PartialEq, Eq)]
pub struct PublicKey {
    /// Its SEC 1 serialization.
    pub bytes: [u8; 33],
}

/// A BIP-32 chain code.
#[derive(Clone, Copy, Debug, PartialEq, Eq)]
pub struct ChainCode {
    /// The bytes.
    pub bytes: [u8; 32],
}

impl View for Fingerprint {
    type V = Seq<u8>;

    open spec fn view(&self) -> Seq<u8> {
        self.bytes@
    }
}

impl View for PublicKey {
    type V = Seq<u8>;

    open spec fn view(&self) -> Seq<u8> {
        self.bytes@
    }
}

impl View for ChainCode {
    type V = Seq<u8>;

    open spec fn view(&self) -> Seq<u8> {
        self.bytes@
    }
}

/// Whether the two slices hold the same bytes.
pub fn same_bytes(a: &[u8], b: &[u8]) -> (same: bool)
    ensures
        same == (a@ == b@),
{
    if a.len() != b.len() {
        return false;
    }
    let n: usize = a.len();
    let mut i: usize = 0;
    while i < n
        invariant
            i <= n,
            n == a@.len(),
            n == b@.len(),
            forall|j: int| 0 <= j < i ==> a@[j] == b@[j],
        decreases n - i,
    {
        if a[i] != b[i] {
            return false;
        }
        i = i + 1;
    }
    assert(a@ =~= b@);
    true
}

impl Fingerprint {
    /// Whether the two fingerprints are the same.
    pub fn same(&self, other: &Fingerprint) -> (b: bool)
        ensures
            b == (self@ == other@),
    {
        same_bytes(self.bytes.as_slice(), other.bytes.as_slice())
    }
}

// ---------------------------------------------------------------------------
// Networks and extended keys
// ---------------------------------------------------------------------------

/// A bitcoin network.
#[derive(Clone, Copy, Debug, PartialEq, Eq, Structural)]
pub enum Network {
    /// The main network.
    Bitcoin,
    /// The third test network.
    Testnet,
    /// The fourth test network.
    Testnet4,
    /// The signed test network.
    Signet,
    /// A local network.
    Regtest,
}

/// What a serialized extended key tells of its network.
#[derive(Clone, Copy, Debug, PartialEq, Eq, Structural)]
pub enum NetworkKind {
    /// The main network.
    Main,
    /// Any other.
    Test,
}

impl Network {
    /// The kind of the network.
    pub open spec fn kind_view(self) -> NetworkKind {
        if self == Network::Bitcoin {
            NetworkKind::Main
        } else {
            NetworkKind::Test
        }
    }

    /// The kind of the network.
    pub fn kind(self) -> (k: NetworkKind)
        ensures
            k == self.kind_view(),
    {
        match self {
            Network::Bitcoin => NetworkKind::Main,
            _ => NetworkKind::Test,
        }
    }

    /// The network's name.
    pub open spec fn name_view(self) -> Seq<char> {
        match self {
            Network::Bitcoin => "bitcoin"@,
            Network::Testnet => "testnet"@,
            Network::Testnet4 => "testnet4"@,
            Network::Signet => "signet"@,
            Network::Regtest => "regtest"@,
        }
    }

    /// The network's name.
    pub fn name(self) -> (n: &'static str)
        ensures
            n@ == self.name_view(),
    {
        match self {
            Network::Bitcoin => "bitcoin",
            Network::Testnet => "testnet",
            Network::Testnet4 => "testnet4",
            Network::Signet => "signet",
            Network::Regtest => "regtest",
        }
    }
}

/// An extended public key.
#[derive(Clone, Copy, Debug, PartialEq, Eq)]
pub struct Xpub {
    /// The kind of network it is serialized for.
    pub network: NetworkKind,
    /// How many derivations it is away from the master key.
    pub depth: u8,
    /// The fingerprint of the parent key.
    pub parent_fingerprint: Fingerprint,
    /// The step from the parent key.
    pub child_number: ChildNumber,
    /// The public key.
    pub public_key: PublicKey,
    /// The chain code.
    pub chain_code: ChainCode,
}

/// What an [`Xpub`] says.
pub struct XpubView {
    pub network: NetworkKind,
    pub depth: u8,
    pub parent_fingerprint: Seq<u8>,
    pub child_number: ChildNumber,
    pub public_key: Seq<u8>,
    pub chain_code: Seq<u8>,
}

impl View for Xpub {
    type V = XpubView;

    open spec fn view(&self) -> XpubView {
        XpubView {
            network: self.network,
            depth: self.depth,
            parent_fingerprint: self.parent_fingerprint@,
            child_number: self.child_number,
            public_key: self.public_key@,
            chain_code: self.chain_code@,
        }
    }
}

} // verus!
