//! Canonical outer event encoding shared by native replay and the relation.
//!
//! Events advance the chain of the executing coroutine (before control is
//! transferred), or the chain of the loaded or exported UTXO for storage. Chains
//! start from zero; ABI preloads and phase transitions emit nothing. An event is
//! a sequence of eight-word blocks with at most one four-word root per block,
//! filled up with zeros before a root that does not fit and at the end of the
//! event. A continuation block has no tag of its own. Roots are already encoded;
//! unit is four literal zero words.

use vstd::prelude::*;

use crate::trace::{MethodHash, Out, ResourceHandle, StarstreamValue, Step};

verus! {

/// The kinds of event that a program emits.
#[derive(Clone, Copy, Debug, PartialEq, Eq, Structural)]
pub enum EventKind {
    SetStorage,
    GetStorage,
    NewUtxo,
    EnterConstructor,
    YieldBegin,
    RegisterMethod,
    Return,
    CallMethod,
    EnterMethod,
}

/// Where a word of an event block comes from.
#[derive(Clone, Copy, Debug, PartialEq, Eq, Structural)]
pub enum Word {
    Constant(u32),
    Resource,
    Method(usize),
    Argument(usize),
    Result(usize),
}

/// What the words of an event refer to.
pub struct EventValues {
    pub resource: u32,
    pub method: MethodHash,
    pub argument: StarstreamValue,
    pub result: StarstreamValue,
}

/// Words filled up with zeros to whole blocks.
pub open spec fn padded(words: Seq<Word>) -> Seq<Word> {
    Seq::new(
        ((words.len() + 7) / 8 * 8) as nat,
        |i: int|
            if i < words.len() {
                words[i]
            } else {
                Word::Constant(0)
            },
    )
}

/// Word `i` of the argument root, or of the result root.
pub open spec fn root_word(argument: bool, i: int) -> Word {
    if argument {
        Word::Argument(i as usize)
    } else {
        Word::Result(i as usize)
    }
}

/// Block of the first word of a root appended to `words`, where the last root
/// lies in block `last`.
pub open spec fn before_root(words: Seq<Word>, last: Option<usize>) -> Seq<Word> {
    if words.len() % 8 > 4 || last == Some((words.len() / 8) as usize) {
        padded(words)
    } else {
        words
    }
}

impl EventKind {
    /// The kind of event that a step emits, if it emits one.
    pub open spec fn of_step(step: Step) -> Option<EventKind> {
        match step {
            Step::SetStorage { .. } => Some(EventKind::SetStorage),
            Step::GetStorage { .. } => Some(EventKind::GetStorage),
            Step::PreloadMethod { .. } => None,
            Step::ReadAbi { .. } => None,
            Step::SkipConsumed => None,
            Step::FinishTransaction => None,
            Step::NewUtxo { .. } => Some(EventKind::NewUtxo),
            Step::EnterConstructor { .. } => Some(EventKind::EnterConstructor),
            Step::YieldBegin => Some(EventKind::YieldBegin),
            Step::RegisterMethod { .. } => Some(EventKind::RegisterMethod),
            Step::Return { .. } => Some(EventKind::Return),
            Step::CallMethod { .. } => Some(EventKind::CallMethod),
            Step::EnterMethod { .. } => Some(EventKind::EnterMethod),
        }
    }

    /// The kind of event that `step` emits; none for ABI preloads, ABI reads and
    /// phase transitions.
    pub fn for_step(step: &Step) -> (kind: Option<EventKind>)
        ensures
            kind == EventKind::of_step(*step),
    {
        match step {
            Step::SetStorage { .. } => Some(EventKind::SetStorage),
            Step::GetStorage { .. } => Some(EventKind::GetStorage),
            Step::PreloadMethod { .. } => None,
            Step::ReadAbi { .. } => None,
            Step::SkipConsumed => None,
            Step::FinishTransaction => None,
            Step::NewUtxo { .. } => Some(EventKind::NewUtxo),
            Step::EnterConstructor { .. } => Some(EventKind::EnterConstructor),
            Step::YieldBegin => Some(EventKind::YieldBegin),
            Step::RegisterMethod { .. } => Some(EventKind::RegisterMethod),
            Step::Return { .. } => Some(EventKind::Return),
            Step::CallMethod { .. } => Some(EventKind::CallMethod),
            Step::EnterMethod { .. } => Some(EventKind::EnterMethod),
        }
    }

    /// First word of every event of this kind.
    #[verifier::allow_in_spec]
    pub fn tag(self) -> u32
        returns
            (match self {
                EventKind::SetStorage => 8u32,
                EventKind::GetStorage => 9,
                EventKind::NewUtxo => 1,
                EventKind::EnterConstructor => 2,
                EventKind::YieldBegin => 3,
                EventKind::RegisterMethod => 4,
                EventKind::Return => 5,
                EventKind::CallMethod => 6,
                EventKind::EnterMethod => 7,
            }),
    {
        match self {
            EventKind::SetStorage => 8,
            EventKind::GetStorage => 9,
            EventKind::NewUtxo => 1,
            EventKind::EnterConstructor => 2,
            EventKind::YieldBegin => 3,
            EventKind::RegisterMethod => 4,
            EventKind::Return => 5,
            EventKind::CallMethod => 6,
            EventKind::EnterMethod => 7,
        }
    }

    /// The blocks of an event of this kind, word by word.
    pub open spec fn template(self) -> Seq<[Word; 8]> {
        let zero = Word::Constant(0);
        let tag = Word::Constant(self.tag());
        let a = |i: usize| Word::Argument(i);
        let r = |i: usize| Word::Result(i);
        let m = |i: usize| Word::Method(i);
        match self {
            EventKind::SetStorage => seq![[tag, a(0), a(1), a(2), a(3), zero, zero, zero]],
            EventKind::GetStorage => seq![[tag, r(0), r(1), r(2), r(3), zero, zero, zero]],
            EventKind::NewUtxo => seq![
                [tag, a(0), a(1), a(2), a(3), Word::Resource, zero, zero],
            ],
            EventKind::EnterConstructor => seq![[tag, a(0), a(1), a(2), a(3), zero, zero, zero]],
            EventKind::YieldBegin => seq![[tag, zero, zero, zero, zero, zero, zero, zero]],
            EventKind::RegisterMethod => seq![
                [tag, m(0), m(1), m(2), m(3), m(4), m(5), m(6)],
                [m(7), zero, zero, zero, zero, zero, zero, zero],
            ],
            EventKind::Return => seq![[tag, r(0), r(1), r(2), r(3), zero, zero, zero]],
            EventKind::CallMethod => seq![
                [tag, Word::Resource, m(0), m(1), m(2), m(3), m(4), m(5)],
                [m(6), m(7), a(0), a(1), a(2), a(3), zero, zero],
                [r(0), r(1), r(2), r(3), zero, zero, zero, zero],
            ],
            EventKind::EnterMethod => seq![
                [tag, m(0), m(1), m(2), m(3), m(4), m(5), m(6)],
                [m(7), a(0), a(1), a(2), a(3), zero, zero, zero],
            ],
        }
    }

    /// The blocks of an event of this kind.
    pub fn blocks(self) -> (blocks: Vec<[Word; 8]>)
        ensures
            blocks@ == self.template(),
            1 <= blocks@.len() <= 3,
    {
        let mut words: Vec<Word> = Vec::new();
        words.push(Word::Constant(self.tag()));
        let mut last: Option<usize> = None;
        match self {
            EventKind::SetStorage => push_root(&mut words, &mut last, true),
            EventKind::GetStorage => push_root(&mut words, &mut last, false),
            EventKind::NewUtxo => {
                push_root(&mut words, &mut last, true);
                words.push(Word::Resource);
            },
            EventKind::EnterConstructor => push_root(&mut words, &mut last, true),
            EventKind::YieldBegin => {},
            EventKind::RegisterMethod => push_method(&mut words),
            EventKind::Return => push_root(&mut words, &mut last, false),
            EventKind::CallMethod => {
                words.push(Word::Resource);
                push_method(&mut words);
                push_root(&mut words, &mut last, true);
                push_root(&mut words, &mut last, false);
            },
            EventKind::EnterMethod => {
                push_method(&mut words);
                push_root(&mut words, &mut last, true);
            },
        }
        pad(&mut words);
        let ghost all = words@;
        let mut blocks: Vec<[Word; 8]> = Vec::new();
        let mut i: usize = 0;
        while i < words.len()
            invariant
                words@ == all,
                words@.len() % 8 == 0,
                words@.len() <= 24,
                i <= words@.len(),
                i == 8 * blocks@.len(),
                forall|b: int, lane: int|
                    0 <= b < blocks@.len() && 0 <= lane < 8 ==> #[trigger] blocks@[b][lane]
                        == words@[8 * b + lane],
            decreases words@.len() - i,
        {
            blocks.push(
                [
                    words[i],
                    words[i + 1],
                    words[i + 2],
                    words[i + 3],
                    words[i + 4],
                    words[i + 5],
                    words[i + 6],
                    words[i + 7],
                ],
            );
            i = i + 8;
        }
        proof {
            let template = self.template();
            assert(blocks@.len() == template.len());
            assert forall|b: int| 0 <= b < template.len() implies blocks@[b] == template[b] by {
                assert(blocks@[b] =~= template[b]);
            }
        }
        blocks
    }
}

/// Fill up to whole blocks.
fn pad(words: &mut Vec<Word>)
    requires
        old(words)@.len() <= 24,
    ensures
        final(words)@ == padded(old(words)@),
{
    let ghost start = words@;
    while words.len() % 8 != 0
        invariant
            start.len() <= words@.len() <= padded(start).len() <= 24,
            start.len() <= 24,
            forall|i: int| 0 <= i < words@.len() ==> words@[i] == #[trigger] padded(start)[i],
        decreases 24 - words@.len(),
    {
        words.push(Word::Constant(0));
    }
    assert(words@ =~= padded(start));
}

/// Append the eight limbs of a method.
fn push_method(words: &mut Vec<Word>)
    ensures
        final(words)@ == old(words)@ + Seq::new(8, |i: int| Word::Method(i as usize)),
{
    let ghost start = words@;
    let mut i: usize = 0;
    while i < 8
        invariant
            i <= 8,
            words@ == start + Seq::new(i as nat, |j: int| Word::Method(j as usize)),
        decreases 8 - i,
    {
        words.push(Word::Method(i));
        i = i + 1;
    }
}

/// Append a root, in a block of its own.
fn push_root(words: &mut Vec<Word>, last: &mut Option<usize>, argument: bool)
    requires
        old(words)@.len() <= 16,
    ensures
        ({
            let base = before_root(old(words)@, *old(last));
            &&& *final(last) == Some((base.len() / 8) as usize)
            &&& final(words)@ == base + Seq::new(4, |i: int| root_word(argument, i))
        }),
{
    let crowded = match last {
        Some(block) => *block == words.len() / 8,
        None => false,
    };
    if words.len() % 8 > 4 || crowded {
        pad(words);
    }
    let ghost base = words@;
    *last = Some(words.len() / 8);
    let mut i: usize = 0;
    while i < 4
        invariant
            i <= 4,
            words@ == base + Seq::new(i as nat, |j: int| root_word(argument, j)),
        decreases 4 - i,
    {
        if argument {
            words.push(Word::Argument(i));
        } else {
            words.push(Word::Result(i));
        }
        i = i + 1;
    }
}

/// What the words of a step's event refer to. What the step does not carry is
/// zero.
pub open spec fn values_of(step: Step) -> EventValues {
    let unit = StarstreamValue::unit_value();
    let none = MethodHash([0, 0, 0, 0, 0, 0, 0, 0]);
    match step {
        Step::SetStorage { storage, .. } => EventValues {
            resource: 0,
            method: none,
            argument: storage,
            result: unit,
        },
        Step::GetStorage { storage } => EventValues {
            resource: 0,
            method: none,
            argument: unit,
            result: storage.0,
        },
        Step::NewUtxo { arguments, resource } => EventValues {
            resource: resource.0.0,
            method: none,
            argument: arguments,
            result: unit,
        },
        Step::EnterConstructor { arguments } => EventValues {
            resource: 0,
            method: none,
            argument: arguments,
            result: unit,
        },
        Step::RegisterMethod { method } => EventValues {
            resource: 0,
            method,
            argument: unit,
            result: unit,
        },
        Step::Return { result } => EventValues {
            resource: 0,
            method: none,
            argument: unit,
            result: result.0,
        },
        Step::CallMethod { resource, method, arguments, result } => EventValues {
            resource: resource.0,
            method,
            argument: arguments,
            result: result.0,
        },
        Step::EnterMethod { method, arguments } => EventValues {
            resource: 0,
            method,
            argument: arguments,
            result: unit,
        },
        _ => EventValues { resource: 0, method: none, argument: unit, result: unit },
    }
}

/// The value of a word.
pub open spec fn word_value(word: Word, values: EventValues) -> u64 {
    match word {
        Word::Constant(x) => x as u64,
        Word::Resource => values.resource as u64,
        Word::Method(i) => values.method.0[i as int] as u64,
        Word::Argument(i) => values.argument.0[i as int],
        Word::Result(i) => values.result.0[i as int],
    }
}

/// The values of a block.
pub open spec fn block_values(block: [Word; 8], values: EventValues) -> [u64; 8] {
    [
        word_value(block[0], values),
        word_value(block[1], values),
        word_value(block[2], values),
        word_value(block[3], values),
        word_value(block[4], values),
        word_value(block[5], values),
        word_value(block[6], values),
        word_value(block[7], values),
    ]
}

/// The blocks of the event that a step emits; none where it emits no event.
pub open spec fn encoding(step: Step) -> Seq<[u64; 8]> {
    match EventKind::of_step(step) {
        None => seq![],
        Some(kind) => Seq::new(
            kind.template().len(),
            |b: int| block_values(kind.template()[b], values_of(step)),
        ),
    }
}

/// [`values_of`] a step.
fn event_values(step: &Step) -> (values: EventValues)
    ensures
        values == values_of(*step),
{
    let unit = StarstreamValue::unit_value();
    let none = MethodHash([0, 0, 0, 0, 0, 0, 0, 0]);
    let (resource, method, argument, result) = match *step {
        Step::SetStorage { storage, .. } => (0u32, none, storage, unit),
        Step::GetStorage { storage } => (0u32, none, unit, storage.0),
        Step::NewUtxo { arguments, resource } => (resource.0.0, none, arguments, unit),
        Step::EnterConstructor { arguments } => (0u32, none, arguments, unit),
        Step::RegisterMethod { method } => (0u32, method, unit, unit),
        Step::Return { result } => (0u32, none, unit, result.0),
        Step::CallMethod { resource, method, arguments, result } => (
            resource.0,
            method,
            arguments,
            result.0,
        ),
        Step::EnterMethod { method, arguments } => (0u32, method, arguments, unit),
        _ => (0u32, none, unit, unit),
    };
    EventValues { resource, method, argument, result }
}

/// A word whose index lies within what it indexes.
pub open spec fn well_indexed(word: Word) -> bool {
    match word {
        Word::Constant(_) => true,
        Word::Resource => true,
        Word::Method(i) => i < 8,
        Word::Argument(i) => i < 4,
        Word::Result(i) => i < 4,
    }
}

/// [`word_value`] of a word.
fn value_of(word: Word, values: &EventValues) -> (value: u64)
    requires
        well_indexed(word),
    ensures
        value == word_value(word, *values),
{
    match word {
        Word::Constant(x) => x as u64,
        Word::Resource => values.resource as u64,
        Word::Method(i) => values.method.0[i] as u64,
        Word::Argument(i) => values.argument.0[i],
        Word::Result(i) => values.result.0[i],
    }
}

/// Every word of a template is well indexed.
pub proof fn lemma_templates_well_indexed(kind: EventKind, block: int, lane: int)
    requires
        0 <= block < kind.template().len(),
        0 <= lane < 8,
    ensures
        well_indexed(kind.template()[block][lane]),
{
}

/// The event of a step as blocks of eight words; no block where the step emits
/// no event.
pub fn encode(step: &Step) -> (blocks: Vec<[u64; 8]>)
    ensures
        blocks@ == encoding(*step),
{
    let kind = match EventKind::for_step(step) {
        Some(kind) => kind,
        None => {
            let empty: Vec<[u64; 8]> = Vec::new();
            return empty;
        },
    };
    let values = event_values(step);
    let template = kind.blocks();
    let mut blocks: Vec<[u64; 8]> = Vec::new();
    let mut b: usize = 0;
    while b < template.len()
        invariant
            template@ == kind.template(),
            values == values_of(*step),
            b <= template@.len(),
            blocks@.len() == b,
            forall|j: int|
                0 <= j < b ==> #[trigger] blocks@[j] == block_values(template@[j], values),
        decreases template@.len() - b,
    {
        let block = template[b];
        proof {
            assert forall|lane: int| 0 <= lane < 8 implies well_indexed(
                #[trigger] block[lane],
            ) by {
                lemma_templates_well_indexed(kind, b as int, lane);
            }
        }
        blocks.push(
            [
                value_of(block[0], &values),
                value_of(block[1], &values),
                value_of(block[2], &values),
                value_of(block[3], &values),
                value_of(block[4], &values),
                value_of(block[5], &values),
                value_of(block[6], &values),
                value_of(block[7], &values),
            ],
        );
        b = b + 1;
    }
    assert(blocks@ =~= encoding(*step));
    blocks
}

/// A step without the handle under which it loads an input: the event of a loaded input is
/// its storage alone.
pub open spec fn without_input_handle(step: Step) -> Step {
    match step {
        Step::SetStorage { storage, .. } => Step::SetStorage {
            storage,
            resource: Out(ResourceHandle(0)),
        },
        _ => step,
    }
}

/// The first word of an event is the tag of its kind.
proof fn lemma_tagged(step: Step)
    requires
        EventKind::of_step(step) is Some,
    ensures
        encoding(step).len() == EventKind::of_step(step)->0.template().len() > 0,
        encoding(step)[0][0] == EventKind::of_step(step)->0.tag(),
{
}

/// Values with the same words are the same.
pub(crate) proof fn lemma_same_words(a: StarstreamValue, b: StarstreamValue)
    requires
        a.0[0] == b.0[0],
        a.0[1] == b.0[1],
        a.0[2] == b.0[2],
        a.0[3] == b.0[3],
    ensures
        a == b,
{
    assert(a.0@ =~= b.0@);
    assert(a.0 == b.0);
}

/// Methods with the same limbs are the same.
pub(crate) proof fn lemma_same_limbs(a: MethodHash, b: MethodHash)
    requires
        forall|i: int| 0 <= i < 8 ==> #[trigger] a.0[i] == b.0[i],
    ensures
        a == b,
{
    assert(a.0@ =~= b.0@);
    assert(a.0 == b.0);
}

/// The root of a step whose event has one block is found again in it.
proof fn lemma_one_block(a: Step, b: Step)
    requires
        EventKind::of_step(a) is Some,
        EventKind::of_step(a) == EventKind::of_step(b),
        EventKind::of_step(a)->0.template().len() == 1,
        encoding(a) == encoding(b),
    ensures
        without_input_handle(a) == without_input_handle(b),
{
    let x = encoding(a)[0];
    let y = encoding(b)[0];
    assert(x == y);
    let v = values_of(a);
    let w = values_of(b);
    if EventKind::of_step(a) == Some(EventKind::GetStorage) || EventKind::of_step(a) == Some(
        EventKind::Return,
    ) {
        assert(x[1] == v.result.0[0] && x[2] == v.result.0[1] && x[3] == v.result.0[2] && x[4]
            == v.result.0[3]);
        assert(y[1] == w.result.0[0] && y[2] == w.result.0[1] && y[3] == w.result.0[2] && y[4]
            == w.result.0[3]);
        lemma_same_words(v.result, w.result);
    } else if EventKind::of_step(a) != Some(EventKind::YieldBegin) {
        assert(x[1] == v.argument.0[0] && x[2] == v.argument.0[1] && x[3] == v.argument.0[2]
            && x[4] == v.argument.0[3]);
        assert(y[1] == w.argument.0[0] && y[2] == w.argument.0[1] && y[3] == w.argument.0[2]
            && y[4] == w.argument.0[3]);
        lemma_same_words(v.argument, w.argument);
        if EventKind::of_step(a) == Some(EventKind::NewUtxo) {
            assert(x[5] == v.resource && y[5] == w.resource);
        }
    }
}

/// The method and the argument of a step whose event has two blocks are found again in them.
proof fn lemma_two_blocks(a: Step, b: Step)
    requires
        EventKind::of_step(a) is Some,
        EventKind::of_step(a) == EventKind::of_step(b),
        EventKind::of_step(a)->0.template().len() == 2,
        encoding(a) == encoding(b),
    ensures
        a == b,
{
    let v = values_of(a);
    let w = values_of(b);
    let x = encoding(a);
    let y = encoding(b);
    assert(x[0] == y[0] && x[1] == y[1]);
    assert forall|i: int| 0 <= i < 8 implies #[trigger] v.method.0[i] == w.method.0[i] by {
        if i < 7 {
            assert(x[0][i + 1] == v.method.0[i]);
            assert(y[0][i + 1] == w.method.0[i]);
        } else {
            assert(x[1][0] == v.method.0[7]);
            assert(y[1][0] == w.method.0[7]);
        }
    }
    lemma_same_limbs(v.method, w.method);
    if EventKind::of_step(a) == Some(EventKind::EnterMethod) {
        assert(x[1][1] == v.argument.0[0] && x[1][2] == v.argument.0[1] && x[1][3]
            == v.argument.0[2] && x[1][4] == v.argument.0[3]);
        assert(y[1][1] == w.argument.0[0] && y[1][2] == w.argument.0[1] && y[1][3]
            == w.argument.0[2] && y[1][4] == w.argument.0[3]);
        lemma_same_words(v.argument, w.argument);
    }
}

/// A call is found again in its three blocks.
proof fn lemma_three_blocks(a: Step, b: Step)
    requires
        a is CallMethod,
        b is CallMethod,
        encoding(a) == encoding(b),
    ensures
        a == b,
{
    let v = values_of(a);
    let w = values_of(b);
    let x = encoding(a);
    let y = encoding(b);
    assert(x[0] == y[0] && x[1] == y[1] && x[2] == y[2]);
    assert(x[0][1] == v.resource && y[0][1] == w.resource);
    assert forall|i: int| 0 <= i < 8 implies #[trigger] v.method.0[i] == w.method.0[i] by {
        if i < 6 {
            assert(x[0][i + 2] == v.method.0[i]);
            assert(y[0][i + 2] == w.method.0[i]);
        } else {
            assert(x[1][i - 6] == v.method.0[i]);
            assert(y[1][i - 6] == w.method.0[i]);
        }
    }
    lemma_same_limbs(v.method, w.method);
    assert(x[1][2] == v.argument.0[0] && x[1][3] == v.argument.0[1] && x[1][4] == v.argument.0[2]
        && x[1][5] == v.argument.0[3]);
    assert(y[1][2] == w.argument.0[0] && y[1][3] == w.argument.0[1] && y[1][4] == w.argument.0[2]
        && y[1][5] == w.argument.0[3]);
    lemma_same_words(v.argument, w.argument);
    assert(x[2][0] == v.result.0[0] && x[2][1] == v.result.0[1] && x[2][2] == v.result.0[2]
        && x[2][3] == v.result.0[3]);
    assert(y[2][0] == w.result.0[0] && y[2][1] == w.result.0[1] && y[2][2] == w.result.0[2]
        && y[2][3] == w.result.0[3]);
    lemma_same_words(v.result, w.result);
}

/// An encoding tells events apart: two steps that emit one have the same encoding exactly
/// where they are the same, apart from the handle under which an input is loaded.
pub proof fn law_encodings_tell_events_apart(a: Step, b: Step)
    requires
        EventKind::of_step(a) is Some,
        EventKind::of_step(b) is Some,
    ensures
        encoding(a) == encoding(b) <==> without_input_handle(a) == without_input_handle(b),
{
    if encoding(a) == encoding(b) {
        lemma_tagged(a);
        lemma_tagged(b);
        assert(encoding(a)[0] == encoding(b)[0]);
        assert(EventKind::of_step(a) == EventKind::of_step(b));
        let length = EventKind::of_step(a)->0.template().len();
        if length == 1 {
            lemma_one_block(a, b);
        } else if length == 2 {
            lemma_two_blocks(a, b);
        } else {
            lemma_three_blocks(a, b);
        }
    }
    if without_input_handle(a) == without_input_handle(b) {
        assert(EventKind::of_step(a) == EventKind::of_step(b));
        assert(values_of(a) == values_of(b));
    }
}

} // verus!
