//! Transactions to be signed, as far as a signer reads and fills them.
use crate::bip32::{same_bytes, ChildNumber, DerivationPath, Fingerprint, PublicKey};
use vstd::prelude::*;

verus! {

/// An input of an unsigned transaction.
#[derive(Clone, Copy, Debug)]
pub struct TxIn {
    /// The id of the transaction whose output is spent, as hashed.
    pub txid: [u8; 32],
    /// Which of its outputs.
    pub vout: u32,
    /// The sequence number.
    pub sequence: u32,
}

/// An output.
#[derive(Debug)]
pub struct TxOut {
    /// The amount in satoshi.
    pub value: u64,
    /// The script that guards it.
    pub script_pubkey: Vec<u8>,
}

/// What a [`TxOut`] says.
pub struct TxOutView {
    pub value: u64,
    pub script_pubkey: Seq<u8>,
}

impl View for TxOut {
    type V = TxOutView;

    open spec fn view(&self) -> TxOutView {
        TxOutView { value: self.value, script_pubkey: self.script_pubkey@ }
    }
}

/// What a list of outputs says.
pub open spec fn outputs(list: Seq<TxOut>) -> Seq<TxOutView> {
    list.map_values(|o: TxOut| o@)
}

/// A transaction without its signatures.
#[derive(Debug)]
pub struct Transaction {
    /// The version.
    pub version: i32,
    /// The lock time, in its consensus encoding.
    pub lock_time: u32,
    /// The inputs.
    pub input: Vec<TxIn>,
    /// The outputs.
    pub output: Vec<TxOut>,
}

/// What a [`Transaction`] says.
pub struct TransactionView {
    pub version: i32,
    pub lock_time: u32,
    pub input: Seq<TxIn>,
    pub output: Seq<TxOutView>,
}

impl View for Transaction {
    type V = TransactionView;

    open spec fn view(&self) -> TransactionView {
        TransactionView {
            version: self.version,
            lock_time: self.lock_time,
            input: self.input@,
            output: outputs(self.output@),
        }
    }
}

/// Where a key of an input comes from.
#[derive(Debug)]
pub struct KeyOrigin {
    /// The key.
    pub key: PublicKey,
    /// The fingerprint of the master key it descends from.
    pub fingerprint: Fingerprint,
    /// The path from that master key.
    pub path: DerivationPath,
}

/// What a [`KeyOrigin`] says.
pub struct KeyOriginView {
    pub key: Seq<u8>,
    pub fingerprint: Seq<u8>,
    pub path: Seq<ChildNumber>,
}

impl View for KeyOrigin {
    type V = KeyOriginView;

    open spec fn view(&self) -> KeyOriginView {
        KeyOriginView { key: self.key@, fingerprint: self.fingerprint@, path: self.path@ }
    }
}

/// What a list of origins says.
pub open spec fn origins(list: Seq<KeyOrigin>) -> Seq<KeyOriginView> {
    list.map_values(|o: KeyOrigin| o@)
}

/// Where a Taproot key of an input comes from, and the leaves it signs for.
#[derive(Debug)]
pub struct TapKeyOrigin {
    /// The x coordinate of the key.
    pub key: [u8; 32],
    /// The hashes of the leaves whose scripts name the key.
    pub leaf_hashes: Vec<[u8; 32]>,
    /// The fingerprint of the master key it descends from.
    pub fingerprint: Fingerprint,
    /// The path from that master key.
    pub path: DerivationPath,
}

/// What a list of hashes says.
pub open spec fn hashes(list: Seq<[u8; 32]>) -> Seq<Seq<u8>> {
    list.map_values(|h: [u8; 32]| h@)
}

/// What a [`TapKeyOrigin`] says.
pub struct TapKeyOriginView {
    pub key: Seq<u8>,
    pub leaf_hashes: Seq<Seq<u8>>,
    pub fingerprint: Seq<u8>,
    pub path: Seq<ChildNumber>,
}

impl View for TapKeyOrigin {
    type V = TapKeyOriginView;

    open spec fn view(&self) -> TapKeyOriginView {
        TapKeyOriginView {
            key: self.key@,
            leaf_hashes: hashes(self.leaf_hashes@),
            fingerprint: self.fingerprint@,
            path: self.path@,
        }
    }
}

/// What a list of origins says.
pub open spec fn tap_origins(list: Seq<TapKeyOrigin>) -> Seq<TapKeyOriginView> {
    list.map_values(|o: TapKeyOrigin| o@)
}

/// One signature of an input.
#[derive(Debug)]
pub struct PartialSig {
    /// The serialized public key that it is by.
    pub key: Vec<u8>,
    /// The signature, with the byte that tells what it covers where it is
    /// kept with one.
    pub signature: Vec<u8>,
    /// The number that tells what the signature covers.
    pub sighash_type: u32,
}

/// What a [`PartialSig`] says.
pub struct PartialSigView {
    pub key: Seq<u8>,
    pub signature: Seq<u8>,
    pub sighash_type: u32,
}

impl View for PartialSig {
    type V = PartialSigView;

    open spec fn view(&self) -> PartialSigView {
        PartialSigView {
            key: self.key@,
            signature: self.signature@,
            sighash_type: self.sighash_type,
        }
    }
}

/// What a list of signatures says.
pub open spec fn sigs(list: Seq<PartialSig>) -> Seq<PartialSigView> {
    list.map_values(|s: PartialSig| s@)
}

/// The signatures with `new` among them: in place of the one by the same key,
/// or behind them all where there is none.
pub open spec fn with_sig(list: Seq<PartialSigView>, new: PartialSigView) -> Seq<PartialSigView>
    decreases list.len(),
{
    if list.len() == 0 {
        seq![new]
    } else if list[0].key == new.key {
        list.update(0, new)
    } else {
        seq![list[0]] + with_sig(list.drop_first(), new)
    }
}

/// No key has two signatures.
pub open spec fn distinct_keys(list: Seq<PartialSigView>) -> bool {
    forall|i: int, j: int|
        #![trigger list[i], list[j]]
        0 <= i < j < list.len() ==> list[i].key != list[j].key
}

/// Adds a signature to an input, in place of one by the same key.
pub fn insert_sig(list: &mut Vec<PartialSig>, new: PartialSig)
    ensures
        sigs(final(list)@) == with_sig(sigs(old(list)@), new@),
{
    let n: usize = list.len();
    let mut i: usize = 0;
    let ghost before = sigs(list@);
    assert(before.take(0) + with_sig(before.skip(0), new@) =~= with_sig(before, new@)) by {
        assert(before.skip(0) =~= before);
    }
    while i < n
        invariant
            i <= n,
            n == list@.len(),
            before == sigs(old(list)@),
            sigs(list@) == before,
            before.take(i as int) + with_sig(before.skip(i as int), new@) == with_sig(before, new@),
        decreases n - i,
    {
        let ghost rest = before.skip(i as int);
        assert(rest[0] == list@[i as int]@);
        if same_bytes(list[i].key.as_slice(), new.key.as_slice()) {
            let ghost added = new@;
            list.set(i, new);
            proof {
                assert(rest.update(0, added) =~= with_sig(rest, added));
                assert(sigs(list@) =~= before.take(i as int) + rest.update(0, added));
            }
            return ;
        }
        proof {
            assert(rest.drop_first() =~= before.skip(i + 1));
            assert(before.take(i as int) + (seq![rest[0]] + with_sig(rest.drop_first(), new@))
                =~= before.take(i + 1) + with_sig(before.skip(i + 1), new@));
        }
        i = i + 1;
    }
    let ghost added = new@;
    list.push(new);
    proof {
        assert(before.skip(n as int) =~= Seq::<PartialSigView>::empty());
        assert(before.take(n as int) =~= before);
        assert(sigs(list@) =~= before + seq![added]);
    }
}

/// Adding a signature leaves every other key's signature as it was, puts the
/// new one in under its own key, and gives no key a second one: signing twice
/// with the same key leaves one entry.
pub proof fn law_with_sig(list: Seq<PartialSigView>, new: PartialSigView)
    requires
        distinct_keys(list),
    ensures
        distinct_keys(with_sig(list, new)),
        with_sig(list, new).contains(new),
        forall|s: PartialSigView|
            s.key != new.key ==> (#[trigger] with_sig(list, new).contains(s) == list.contains(s)),
        forall|s: PartialSigView| #[trigger]
            with_sig(list, new).contains(s) && s.key == new.key ==> s == new,
    decreases list.len(),
{
    let after = with_sig(list, new);
    if list.len() == 0 {
        assert(after[0] == new);
    } else if list[0].key == new.key {
        assert(after[0] == new);
        assert forall|s: PartialSigView| s.key != new.key implies #[trigger] after.contains(s)
            == list.contains(s) by {
            if after.contains(s) {
                let i = choose|i: int| 0 <= i < after.len() && after[i] == s;
                assert(list[i] == s);
            }
            if list.contains(s) {
                let i = choose|i: int| 0 <= i < list.len() && list[i] == s;
                assert(after[i] == s);
            }
        }
        assert forall|s: PartialSigView| #[trigger]
            after.contains(s) && s.key == new.key implies s == new by {
            let i = choose|i: int| 0 <= i < after.len() && after[i] == s;
            if i > 0 {
                assert(list[0].key != list[i].key);
            }
        }
    } else {
        let tail = list.drop_first();
        let rest = with_sig(tail, new);
        assert(distinct_keys(tail)) by {
            assert forall|i: int, j: int| 0 <= i < j < tail.len() implies #[trigger] tail[i].key
                != #[trigger] tail[j].key by {
                assert(list[i + 1].key != list[j + 1].key);
            }
        }
        law_with_sig(tail, new);
        assert(after =~= seq![list[0]] + rest);
        assert forall|s: PartialSigView| #[trigger] after.contains(s) == (s == list[0]
            || rest.contains(s)) by {
            if rest.contains(s) {
                let i = choose|i: int| 0 <= i < rest.len() && rest[i] == s;
                assert(after[i + 1] == s);
            }
            if s == list[0] {
                assert(after[0] == s);
            }
            if after.contains(s) {
                let i = choose|i: int| 0 <= i < after.len() && after[i] == s;
                if i > 0 {
                    assert(rest[i - 1] == s);
                }
            }
        }
        assert forall|s: PartialSigView| #[trigger] list.contains(s) == (s == list[0]
            || tail.contains(s)) by {
            if tail.contains(s) {
                let i = choose|i: int| 0 <= i < tail.len() && tail[i] == s;
                assert(list[i + 1] == s);
            }
            if list.contains(s) {
                let i = choose|i: int| 0 <= i < list.len() && list[i] == s;
                if i > 0 {
                    assert(tail[i - 1] == s);
                }
            }
        }
        assert(distinct_keys(after)) by {
            assert forall|i: int, j: int| 0 <= i < j < after.len() implies #[trigger] after[i].key
                != #[trigger] after[j].key by {
                if i == 0 {
                    let s = after[j];
                    assert(rest[j - 1] == s);
                    assert(rest.contains(s));
                    if s.key != new.key {
                        assert(tail.contains(s));
                        let k = choose|k: int| 0 <= k < tail.len() && tail[k] == s;
                        assert(list[0].key != list[k + 1].key);
                    }
                } else {
                    assert(rest[i - 1].key != rest[j - 1].key);
                }
            }
        }
        assert(rest.contains(new));
    }
}

/// A Taproot script-path signature of an input.
#[derive(Clone, Copy, Debug)]
pub struct TapScriptSig {
    /// The x coordinate of the key that it is by.
    pub key: [u8; 32],
    /// The hash of the leaf that it is for.
    pub leaf_hash: [u8; 32],
    /// The signature.
    pub signature: [u8; 64],
    /// The number that tells what the signature covers.
    pub sighash_type: u8,
}

/// What a [`TapScriptSig`] says.
pub struct TapScriptSigView {
    pub key: Seq<u8>,
    pub leaf_hash: Seq<u8>,
    pub signature: Seq<u8>,
    pub sighash_type: u8,
}

impl View for TapScriptSig {
    type V = TapScriptSigView;

    open spec fn view(&self) -> TapScriptSigView {
        TapScriptSigView {
            key: self.key@,
            leaf_hash: self.leaf_hash@,
            signature: self.signature@,
            sighash_type: self.sighash_type,
        }
    }
}

/// What a list of Taproot signatures says.
pub open spec fn tap_sigs(list: Seq<TapScriptSig>) -> Seq<TapScriptSigView> {
    list.map_values(|s: TapScriptSig| s@)
}

/// The signatures with `new` among them: in place of the one by the same key
/// for the same leaf, or behind them all where there is none.
pub open spec fn with_tap_sig(list: Seq<TapScriptSigView>, new: TapScriptSigView) -> Seq<
    TapScriptSigView,
>
    decreases list.len(),
{
    if list.len() == 0 {
        seq![new]
    } else if list[0].key == new.key && list[0].leaf_hash == new.leaf_hash {
        list.update(0, new)
    } else {
        seq![list[0]] + with_tap_sig(list.drop_first(), new)
    }
}

/// Adds a Taproot signature to an input, in place of one by the same key for
/// the same leaf.
pub fn insert_tap_sig(list: &mut Vec<TapScriptSig>, new: TapScriptSig)
    ensures
        tap_sigs(final(list)@) == with_tap_sig(tap_sigs(old(list)@), new@),
{
    let n: usize = list.len();
    let mut i: usize = 0;
    let ghost before = tap_sigs(list@);
    assert(before.take(0) + with_tap_sig(before.skip(0), new@) =~= with_tap_sig(before, new@)) by {
        assert(before.skip(0) =~= before);
    }
    while i < n
        invariant
            i <= n,
            n == list@.len(),
            before == tap_sigs(old(list)@),
            tap_sigs(list@) == before,
            before.take(i as int) + with_tap_sig(before.skip(i as int), new@) == with_tap_sig(
                before,
                new@,
            ),
        decreases n - i,
    {
        let ghost rest = before.skip(i as int);
        assert(rest[0] == list@[i as int]@);
        let same_key = same_bytes(list[i].key.as_slice(), new.key.as_slice());
        let same_leaf = same_bytes(list[i].leaf_hash.as_slice(), new.leaf_hash.as_slice());
        if same_key && same_leaf {
            list.set(i, new);
            proof {
                assert(rest.update(0, new@) =~= with_tap_sig(rest, new@));
                assert(tap_sigs(list@) =~= before.take(i as int) + rest.update(0, new@));
            }
            return ;
        }
        proof {
            assert(rest.drop_first() =~= before.skip(i + 1));
            assert(before.take(i as int) + (seq![rest[0]] + with_tap_sig(rest.drop_first(), new@))
                =~= before.take(i + 1) + with_tap_sig(before.skip(i + 1), new@));
        }
        i = i + 1;
    }
    list.push(new);
    proof {
        assert(before.skip(n as int) =~= Seq::<TapScriptSigView>::empty());
        assert(before.take(n as int) =~= before);
        assert(tap_sigs(list@) =~= before + seq![new@]);
    }
}

/// What a signer reads and fills in one input of a PSBT.
#[derive(Debug)]
pub struct PsbtInput {
    /// The keys that sign for the input, in the order of the keys.
    pub bip32_derivation: Vec<KeyOrigin>,
    /// What the signatures should cover.
    pub sighash_type: Option<u32>,
    /// The script that the witness has to satisfy.
    pub witness_script: Option<Vec<u8>>,
    /// The output that the input spends.
    pub witness_utxo: Option<TxOut>,
    /// The signatures so far.
    pub partial_sigs: Vec<PartialSig>,
    /// The Taproot keys that sign for the input, in the order of the keys.
    pub tap_key_origins: Vec<TapKeyOrigin>,
    /// The Taproot signatures so far.
    pub tap_script_sigs: Vec<TapScriptSig>,
}

/// What a [`PsbtInput`] says.
pub struct PsbtInputView {
    pub bip32_derivation: Seq<KeyOriginView>,
    pub sighash_type: Option<u32>,
    pub witness_script: Option<Seq<u8>>,
    pub witness_utxo: Option<TxOutView>,
    pub partial_sigs: Seq<PartialSigView>,
    pub tap_key_origins: Seq<TapKeyOriginView>,
    pub tap_script_sigs: Seq<TapScriptSigView>,
}

/// What bytes that may be absent say.
pub open spec fn bytes_view(b: Option<Vec<u8>>) -> Option<Seq<u8>> {
    match b {
        Some(v) => Some(v@),
        None => None,
    }
}

impl View for PsbtInput {
    type V = PsbtInputView;

    open spec fn view(&self) -> PsbtInputView {
        PsbtInputView {
            bip32_derivation: origins(self.bip32_derivation@),
            sighash_type: self.sighash_type,
            witness_script: bytes_view(self.witness_script),
            witness_utxo: match self.witness_utxo {
                Some(o) => Some(o@),
                None => None,
            },
            partial_sigs: sigs(self.partial_sigs@),
            tap_key_origins: tap_origins(self.tap_key_origins@),
            tap_script_sigs: tap_sigs(self.tap_script_sigs@),
        }
    }
}

/// What a list of inputs says.
pub open spec fn inputs(list: Seq<PsbtInput>) -> Seq<PsbtInputView> {
    list.map_values(|i: PsbtInput| i@)
}

/// A partially signed transaction.
#[derive(Debug)]
pub struct Psbt {
    /// The transaction without its signatures.
    pub unsigned_tx: Transaction,
    /// What signers need to know of each input.
    pub inputs: Vec<PsbtInput>,
}

/// What a [`Psbt`] says.
pub struct PsbtView {
    pub unsigned_tx: TransactionView,
    pub inputs: Seq<PsbtInputView>,
}

impl View for Psbt {
    type V = PsbtView;

    open spec fn view(&self) -> PsbtView {
        PsbtView { unsigned_tx: self.unsigned_tx@, inputs: inputs(self.inputs@) }
    }
}

} // verus!
