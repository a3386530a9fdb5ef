//! Observable transitions of an execution, and the statement of a transaction.

use vstd::prelude::*;

use vstd::std_specs::convert::FromSpecImpl;

use crate::text::{hex, push_hex};

verus! {

/// An arbitrary value: four canonical Goldilocks words of an opaque object root.
///
/// The relation only ever compares such values, as the sender and the receiver
/// need to agree. Hashing of a payload belongs to the program that owns it. Unit
/// is encoded directly, as [`StarstreamValue::unit_value`].
#[derive(Clone, Copy, Debug, PartialEq, Eq, Hash)]
pub struct StarstreamValue(pub [u64; 4]);

/// A resource handle of the WASM component model.
#[derive(Clone, Copy, Debug, PartialEq, Eq, Hash)]
pub struct ResourceHandle(pub u32);

/// SHA-256 method identity as eight little-endian `u32` limbs. Each pair is the
/// low then the high half of a `u64` limb.
#[derive(Clone, Copy, Debug, PartialEq, Eq, Hash)]
pub struct MethodHash(pub [u32; 8]);

/// The hexadecimal digits of a pair of limbs, high limb first.
pub open spec fn pair_text(low: u32, high: u32) -> Seq<char> {
    hex(high as nat, 8) + hex(low as nat, 8)
}

impl MethodHash {
    /// The hexadecimal digits of the four pairs of limbs.
    pub open spec fn hex_text(self) -> Seq<char> {
        pair_text(self.0[0], self.0[1]) + pair_text(self.0[2], self.0[3]) + pair_text(
            self.0[4],
            self.0[5],
        ) + pair_text(self.0[6], self.0[7])
    }

    /// Stable textual form: for every pair of limbs the high one and then the low one,
    /// in eight hexadecimal digits each.
    pub fn to_hex(self) -> (text: String)
        ensures
            text@ == self.hex_text(),
    {
        let mut text = String::new();
        push_hex(&mut text, self.0[1] as u64, 8);
        push_hex(&mut text, self.0[0] as u64, 8);
        push_hex(&mut text, self.0[3] as u64, 8);
        push_hex(&mut text, self.0[2] as u64, 8);
        push_hex(&mut text, self.0[5] as u64, 8);
        push_hex(&mut text, self.0[4] as u64, 8);
        push_hex(&mut text, self.0[7] as u64, 8);
        push_hex(&mut text, self.0[6] as u64, 8);
        assert(text@ =~= self.hex_text());
        text
    }
}

/// A value that a step produces rather than consumes.
#[derive(Clone, Copy, Debug, PartialEq, Eq, Hash)]
pub struct Out<T>(pub T);

impl<T> From<T> for Out<T> {
    fn from(value: T) -> (out: Self) {
        Out(value)
    }
}

impl<T> FromSpecImpl<T> for Out<T> {
    open spec fn obeys_from_spec() -> bool {
        true
    }

    open spec fn from_spec(value: T) -> Self {
        Out(value)
    }
}

/// Low half of a word.
pub open spec fn low_half(word: u64) -> u32 {
    (word % 0x1_0000_0000) as u32
}

/// High half of a word.
pub open spec fn high_half(word: u64) -> u32 {
    (word / 0x1_0000_0000) as u32
}

/// A word cut in halves, low half first.
pub(crate) fn halves(word: u64) -> (r: (u32, u32))
    ensures
        r.0 == low_half(word),
        r.1 == high_half(word),
        word == r.0 + 0x1_0000_0000 * r.1,
{
    ((word % 0x1_0000_0000) as u32, (word / 0x1_0000_0000) as u32)
}

impl StarstreamValue {
    /// Unit (no arguments, no result): four zero words. This is a convention of
    /// the protocol, not the hash of an empty object.
    #[verifier::allow_in_spec]
    pub fn unit_value() -> StarstreamValue
        returns
            StarstreamValue([0, 0, 0, 0]),
    {
        StarstreamValue([0, 0, 0, 0])
    }

    /// The four words as eight halves, the low half of each word first.
    pub open spec fn halved(self) -> [u32; 8] {
        [
            low_half(self.0[0]),
            high_half(self.0[0]),
            low_half(self.0[1]),
            high_half(self.0[1]),
            low_half(self.0[2]),
            high_half(self.0[2]),
            low_half(self.0[3]),
            high_half(self.0[3]),
        ]
    }

    /// The value as eight little-endian 32-bit limbs.
    pub fn words32(&self) -> (limbs: [u32; 8])
        ensures
            limbs == self.halved(),
            forall|i: int|
                0 <= i < 4 ==> (#[trigger] self.0[i]) == limbs[2 * i] + 0x1_0000_0000 * limbs[2 * i
                    + 1],
    {
        let (a0, a1) = halves(self.0[0]);
        let (b0, b1) = halves(self.0[1]);
        let (c0, c1) = halves(self.0[2]);
        let (d0, d1) = halves(self.0[3]);
        [a0, a1, b0, b1, c0, c1, d0, d1]
    }

    /// A symbolic root from at most four small words, filled up with zeros.
    /// This is no payload hashing.
    pub fn from(value: Vec<u32>) -> (root: StarstreamValue)
        requires
            value@.len() <= 4,
        ensures
            forall|i: int|
                0 <= i < 4 ==> #[trigger] root.0[i] == (if i < value@.len() {
                    value@[i]
                } else {
                    0
                }),
    {
        let mut root: [u64; 4] = [0, 0, 0, 0];
        let mut i: usize = 0;
        while i < value.len()
            invariant
                i <= value@.len() <= 4,
                forall|j: int|
                    0 <= j < 4 ==> #[trigger] root[j] == (if j < i {
                        value@[j]
                    } else {
                        0
                    }),
            decreases value@.len() - i,
        {
            root[i] = value[i] as u64;
            i = i + 1;
        }
        StarstreamValue(root)
    }
}

impl Default for StarstreamValue {
    fn default() -> (value: Self)
        ensures
            value == StarstreamValue::unit_value(),
    {
        StarstreamValue::unit_value()
    }
}

/// A single observable transition, as attributed to the coroutine that made it.
#[derive(Clone, Copy, Debug, PartialEq, Eq)]
pub enum Step {
    /// Load an input UTXO. The resource is a witnessed binding of the
    /// coordinator, not part of the transaction's inputs.
    SetStorage { storage: StarstreamValue, resource: Out<ResourceHandle> },
    /// Ledger-supplied ABI entry of the UTXO loaded last; no program event.
    PreloadMethod { method: MethodHash },
    /// Export the next surviving UTXO.
    GetStorage { storage: Out<StarstreamValue> },
    /// Enumeration of the ABI of the UTXO exported last; no program event.
    ReadAbi { method: MethodHash },
    /// Advance the output scan without exporting a consumed UTXO.
    SkipConsumed,
    FinishTransaction,
    NewUtxo { arguments: StarstreamValue, resource: Out<ResourceHandle> },
    EnterConstructor { arguments: StarstreamValue },
    YieldBegin,
    RegisterMethod { method: MethodHash },
    Return { result: Out<StarstreamValue> },
    CallMethod {
        resource: ResourceHandle,
        method: MethodHash,
        arguments: StarstreamValue,
        result: Out<StarstreamValue>,
    },
    EnterMethod { method: MethodHash, arguments: StarstreamValue },
}

/// The steps of an execution, in order.
#[derive(Clone, Debug, PartialEq, Eq)]
pub struct Trace(pub Vec<Step>);

impl Trace {
    /// The trace of the given steps.
    pub fn new(steps: Vec<Step>) -> (trace: Self)
        ensures
            trace.0 == steps,
    {
        Trace(steps)
    }
}

impl Default for Trace {
    fn default() -> (trace: Self)
        ensures
            trace.0@ == Seq::<Step>::empty(),
    {
        Trace(Vec::new())
    }
}

/// A UTXO that a transaction consumes or keeps.
#[derive(Clone, Debug, PartialEq, Eq)]
pub struct InputUtxo {
    pub storage: StarstreamValue,
    /// Ordered initial preload sequence, duplicates included.
    pub methods: Vec<MethodHash>,
}

/// A UTXO that survives a transaction.
#[derive(Clone, Debug, PartialEq, Eq)]
pub struct OutputUtxo {
    pub utxo: u32,
    pub storage: StarstreamValue,
    /// Registration sequence of the final generation, duplicates included.
    pub methods: Vec<MethodHash>,
}

/// Inputs receive consecutive UTXO IDs; outputs are ordered by surviving ID.
#[derive(Clone, Debug, PartialEq, Eq)]
pub struct TransactionStatement {
    pub inputs: Vec<InputUtxo>,
    pub outputs: Vec<OutputUtxo>,
}

impl Default for TransactionStatement {
    fn default() -> (statement: Self)
        ensures
            statement.inputs@ == Seq::<InputUtxo>::empty(),
            statement.outputs@ == Seq::<OutputUtxo>::empty(),
    {
        TransactionStatement { inputs: Vec::new(), outputs: Vec::new() }
    }
}

} // verus!
