//! Replay of a trace through the Quint model: the module that replays it, and what
//! the report of a run means.
//!
//! Running Quint is left to the caller, who passes on what a run left behind.

use vstd::prelude::*;

use crate::field::FIELD_MODULUS;
use crate::text::{
    chars_of, contains, decimal, has, has_at, lines, location_line, matches_at, push_decimal,
    push_lines, push_signed, signed_decimal, source_line, strip_prefix, text_views, trim, trim_text,
    trimmed,
};
use crate::trace::{
    InputUtxo, MethodHash, Out, OutputUtxo, ResourceHandle, StarstreamValue, Step, Trace,
    TransactionStatement,
};

verus! {

/// Half of the field, rounded down.
pub const FIELD_HALF: u64 = 0x7fff_ffff_8000_0000;

/// The representative of a word nearest to zero; one above the largest for a word
/// that is no field element.
pub open spec fn centered(word: u64) -> int {
    if word >= FIELD_MODULUS {
        FIELD_HALF + 1
    } else if word > FIELD_HALF {
        word - FIELD_MODULUS
    } else {
        word as int
    }
}

/// A field element is found again from its centered representative, which a word that
/// is none never has.
pub proof fn law_centered_words_restore(word: u64)
    ensures
        word < FIELD_MODULUS ==> -(FIELD_HALF as int) <= centered(word) <= FIELD_HALF
            && crate::field::residue(centered(word)) == word,
        word >= FIELD_MODULUS ==> centered(word) > FIELD_HALF,
{
    let p = FIELD_MODULUS as int;
    if word < FIELD_MODULUS {
        if word > FIELD_HALF {
            vstd::arithmetic::div_mod::lemma_fundamental_div_mod_converse(
                centered(word),
                p,
                -1,
                word as int,
            );
        } else {
            vstd::arithmetic::div_mod::lemma_small_mod(word as nat, p as nat);
        }
    }
}

/// [`centered`] of a word.
pub fn centered_word(word: u64) -> (r: i64)
    ensures
        r == centered(word),
{
    if word >= FIELD_MODULUS {
        (FIELD_HALF + 1) as i64
    } else if word > FIELD_HALF {
        -((FIELD_MODULUS - word) as i64)
    } else {
        word as i64
    }
}

/// A value as a literal of the model.
pub open spec fn value_text(value: StarstreamValue) -> Seq<char> {
    "List("@ + signed_decimal(centered(value.0[0])) + ", "@ + signed_decimal(centered(value.0[1]))
        + ", "@ + signed_decimal(centered(value.0[2])) + ", "@ + signed_decimal(
        centered(value.0[3]),
    ) + ")"@
}

/// A produced value as a literal of the model.
pub open spec fn out_value_text(value: Out<StarstreamValue>) -> Seq<char> {
    "{ value: "@ + value_text(value.0) + " }"@
}

/// A handle as a literal of the model.
pub open spec fn handle_text(handle: ResourceHandle) -> Seq<char> {
    decimal(handle.0 as nat)
}

/// A produced handle as a literal of the model.
pub open spec fn out_handle_text(handle: Out<ResourceHandle>) -> Seq<char> {
    "{ value: "@ + handle_text(handle.0) + " }"@
}

/// A method as a literal of the model.
pub open spec fn method_text(method: MethodHash) -> Seq<char> {
    "\""@ + method.hex_text() + "\""@
}

/// A step as an action of the model.
pub open spec fn step_text(step: Step) -> Seq<char> {
    match step {
        Step::SetStorage { storage, resource } => "set_storage("@ + value_text(storage) + ", "@
            + out_handle_text(resource) + ")"@,
        Step::PreloadMethod { method } => "preload_method("@ + method_text(method) + ")"@,
        Step::GetStorage { storage } => "get_storage("@ + out_value_text(storage) + ")"@,
        Step::SkipConsumed => "skip_consumed"@,
        Step::ReadAbi { method } => "read_abi("@ + method_text(method) + ")"@,
        Step::FinishTransaction => "finish_transaction"@,
        Step::NewUtxo { arguments, resource } => "new_utxo("@ + value_text(arguments) + ", "@
            + out_handle_text(resource) + ")"@,
        Step::EnterConstructor { arguments } => "enter_constructor("@ + value_text(arguments)
            + ")"@,
        Step::YieldBegin => "yield_begin"@,
        Step::RegisterMethod { method } => "register_method("@ + method_text(method) + ")"@,
        Step::Return { result } => "return("@ + out_value_text(result) + ")"@,
        Step::CallMethod { resource, method, arguments, result } => "call_method("@ + handle_text(
            resource,
        ) + ", "@ + method_text(method) + ", "@ + value_text(arguments) + ", "@ + out_value_text(
            result,
        ) + ")"@,
        Step::EnterMethod { method, arguments } => "enter_method("@ + method_text(method) + ", "@
            + value_text(arguments) + ")"@,
    }
}

/// The first `n` of some methods, with commas between them.
pub open spec fn methods_text(methods: Seq<MethodHash>, n: int) -> Seq<char>
    decreases n,
{
    if n <= 0 {
        seq![]
    } else if n == 1 {
        method_text(methods[0])
    } else {
        methods_text(methods, n - 1) + ", "@ + method_text(methods[n - 1])
    }
}

/// An input as a literal of the model.
pub open spec fn input_text(input: InputUtxo) -> Seq<char> {
    "{ storage: "@ + value_text(input.storage) + ", methods: List("@ + methods_text(
        input.methods@,
        input.methods@.len() as int,
    ) + ") }"@
}

/// An output as a literal of the model.
pub open spec fn output_text(output: OutputUtxo) -> Seq<char> {
    "{ utxo: "@ + decimal(output.utxo as nat) + ", storage: "@ + value_text(output.storage)
        + ", methods: List("@ + methods_text(output.methods@, output.methods@.len() as int)
        + ") }"@
}

/// The first `n` of some inputs, with commas between them.
pub open spec fn inputs_text(inputs: Seq<InputUtxo>, n: int) -> Seq<char>
    decreases n,
{
    if n <= 0 {
        seq![]
    } else if n == 1 {
        input_text(inputs[0])
    } else {
        inputs_text(inputs, n - 1) + ", "@ + input_text(inputs[n - 1])
    }
}

/// The first `n` of some outputs, with commas between them.
pub open spec fn outputs_text(outputs: Seq<OutputUtxo>, n: int) -> Seq<char>
    decreases n,
{
    if n <= 0 {
        seq![]
    } else if n == 1 {
        output_text(outputs[0])
    } else {
        outputs_text(outputs, n - 1) + ", "@ + output_text(outputs[n - 1])
    }
}

/// The state that a replay starts from.
pub open spec fn initial_text(statement: Option<TransactionStatement>) -> Seq<char> {
    match statement {
        None => "new_tx"@,
        Some(statement) => "new_transaction(List("@ + inputs_text(
            statement.inputs@,
            statement.inputs@.len() as int,
        ) + "), List("@ + outputs_text(statement.outputs@, statement.outputs@.len() as int)
            + "))"@,
    }
}

/// The lines before those of the steps.
pub open spec fn head_text(statement: Option<TransactionStatement>) -> Seq<char> {
    "module replay_trace {\n  import starstream.* from \"./starstream\"\n\n  action init = { state' = "@
        + initial_text(statement) + " }\n\n  run execution_satisfies_spec = init\n"@
}

/// The line of a step.
pub open spec fn step_line(step: Step) -> Seq<char> {
    "    .then("@ + step_text(step) + ")\n"@
}

/// The lines of the first `n` steps.
pub open spec fn steps_text(steps: Seq<Step>, n: int) -> Seq<char>
    decreases n,
{
    if n <= 0 {
        seq![]
    } else {
        steps_text(steps, n - 1) + step_line(steps[n - 1])
    }
}

/// The lines behind those of the steps.
pub open spec fn tail_text(statement: Option<TransactionStatement>) -> Seq<char> {
    if statement is Some {
        "    .then(transaction_complete)\n}\n"@
    } else {
        "    .then(execution_complete)\n}\n"@
    }
}

/// The module that replays some steps.
pub open spec fn module_text(
    steps: Seq<Step>,
    statement: Option<TransactionStatement>,
) -> Seq<char> {
    head_text(statement) + steps_text(steps, steps.len() as int) + tail_text(statement)
}

/// Number of lines before that of the first step.
pub const HEAD_LINES: usize = 6;

/// A module replaying a trace, alongside the source line of each step, so that a
/// rejection can be attributed to a step.
#[derive(Clone, Debug, PartialEq, Eq)]
pub struct RenderedModule {
    pub source: String,
    pub step_lines: Vec<usize>,
    pub complete_line: usize,
}

fn push_value(out: &mut String, value: &StarstreamValue)
    ensures
        final(out)@ == old(out)@ + value_text(*value),
{
    let ghost start = out@;
    out.append("List(");
    push_signed(out, centered_word(value.0[0]));
    out.append(", ");
    push_signed(out, centered_word(value.0[1]));
    out.append(", ");
    push_signed(out, centered_word(value.0[2]));
    out.append(", ");
    push_signed(out, centered_word(value.0[3]));
    out.append(")");
    assert(out@ =~= start + value_text(*value));
}

fn push_out_value(out: &mut String, value: &Out<StarstreamValue>)
    ensures
        final(out)@ == old(out)@ + out_value_text(*value),
{
    let ghost start = out@;
    out.append("{ value: ");
    push_value(out, &value.0);
    out.append(" }");
    assert(out@ =~= start + out_value_text(*value));
}

fn push_out_handle(out: &mut String, handle: &Out<ResourceHandle>)
    ensures
        final(out)@ == old(out)@ + out_handle_text(*handle),
{
    let ghost start = out@;
    out.append("{ value: ");
    push_decimal(out, handle.0.0 as u64);
    out.append(" }");
    assert(out@ =~= start + out_handle_text(*handle));
}

fn push_method(out: &mut String, method: &MethodHash)
    ensures
        final(out)@ == old(out)@ + method_text(*method),
{
    let ghost start = out@;
    out.append("\"");
    let digits = method.to_hex();
    out.append(digits.as_str());
    out.append("\"");
    assert(out@ =~= start + method_text(*method));
}

/// A value as a literal of the model.
pub fn render_value(value: &StarstreamValue) -> (text: String)
    ensures
        text@ == value_text(*value),
{
    let mut text = String::new();
    push_value(&mut text, value);
    assert(text@ =~= value_text(*value));
    text
}

fn push_value_call(out: &mut String, action: &str, value: &StarstreamValue)
    ensures
        final(out)@ == old(out)@ + (action@ + value_text(*value) + ")"@),
{
    let ghost start = out@;
    out.append(action);
    push_value(out, value);
    out.append(")");
    assert(out@ =~= start + (action@ + value_text(*value) + ")"@));
}

fn push_out_value_call(out: &mut String, action: &str, value: &Out<StarstreamValue>)
    ensures
        final(out)@ == old(out)@ + (action@ + out_value_text(*value) + ")"@),
{
    let ghost start = out@;
    out.append(action);
    push_out_value(out, value);
    out.append(")");
    assert(out@ =~= start + (action@ + out_value_text(*value) + ")"@));
}

fn push_method_call(out: &mut String, action: &str, method: &MethodHash)
    ensures
        final(out)@ == old(out)@ + (action@ + method_text(*method) + ")"@),
{
    let ghost start = out@;
    out.append(action);
    push_method(out, method);
    out.append(")");
    assert(out@ =~= start + (action@ + method_text(*method) + ")"@));
}

fn push_binding_call(
    out: &mut String,
    action: &str,
    value: &StarstreamValue,
    handle: &Out<ResourceHandle>,
)
    ensures
        final(out)@ == old(out)@ + (action@ + value_text(*value) + ", "@ + out_handle_text(*handle)
            + ")"@),
{
    let ghost start = out@;
    out.append(action);
    push_value(out, value);
    out.append(", ");
    push_out_handle(out, handle);
    out.append(")");
    assert(out@ =~= start + (action@ + value_text(*value) + ", "@ + out_handle_text(*handle)
        + ")"@));
}

fn push_call_method(
    out: &mut String,
    resource: &ResourceHandle,
    method: &MethodHash,
    arguments: &StarstreamValue,
    result: &Out<StarstreamValue>,
)
    ensures
        final(out)@ == old(out)@ + ("call_method("@ + handle_text(*resource) + ", "@ + method_text(
            *method,
        ) + ", "@ + value_text(*arguments) + ", "@ + out_value_text(*result) + ")"@),
{
    let ghost start = out@;
    out.append("call_method(");
    push_decimal(out, resource.0 as u64);
    out.append(", ");
    push_method(out, method);
    out.append(", ");
    push_value(out, arguments);
    out.append(", ");
    push_out_value(out, result);
    out.append(")");
    assert(out@ =~= start + ("call_method("@ + handle_text(*resource) + ", "@ + method_text(
        *method,
    ) + ", "@ + value_text(*arguments) + ", "@ + out_value_text(*result) + ")"@));
}

fn push_enter_method(out: &mut String, method: &MethodHash, arguments: &StarstreamValue)
    ensures
        final(out)@ == old(out)@ + ("enter_method("@ + method_text(*method) + ", "@ + value_text(
            *arguments,
        ) + ")"@),
{
    let ghost start = out@;
    out.append("enter_method(");
    push_method(out, method);
    out.append(", ");
    push_value(out, arguments);
    out.append(")");
    assert(out@ =~= start + ("enter_method("@ + method_text(*method) + ", "@ + value_text(
        *arguments,
    ) + ")"@));
}

fn push_step(out: &mut String, step: &Step)
    ensures
        final(out)@ == old(out)@ + step_text(*step),
{
    match step {
        Step::SetStorage { storage, resource } => push_binding_call(
            out,
            "set_storage(",
            storage,
            resource,
        ),
        Step::PreloadMethod { method } => push_method_call(out, "preload_method(", method),
        Step::GetStorage { storage } => push_out_value_call(out, "get_storage(", storage),
        Step::SkipConsumed => out.append("skip_consumed"),
        Step::ReadAbi { method } => push_method_call(out, "read_abi(", method),
        Step::FinishTransaction => out.append("finish_transaction"),
        Step::NewUtxo { arguments, resource } => push_binding_call(
            out,
            "new_utxo(",
            arguments,
            resource,
        ),
        Step::EnterConstructor { arguments } => push_value_call(
            out,
            "enter_constructor(",
            arguments,
        ),
        Step::YieldBegin => out.append("yield_begin"),
        Step::RegisterMethod { method } => push_method_call(out, "register_method(", method),
        Step::Return { result } => push_out_value_call(out, "return(", result),
        Step::CallMethod { resource, method, arguments, result } => push_call_method(
            out,
            resource,
            method,
            arguments,
            result,
        ),
        Step::EnterMethod { method, arguments } => push_enter_method(out, method, arguments),
    }
}

fn push_step_line(out: &mut String, step: &Step)
    ensures
        final(out)@ == old(out)@ + step_line(*step),
{
    let ghost start = out@;
    out.append("    .then(");
    push_step(out, step);
    out.append(")\n");
    assert(out@ =~= start + step_line(*step));
}

fn push_methods(out: &mut String, methods: &Vec<MethodHash>)
    ensures
        final(out)@ == old(out)@ + methods_text(methods@, methods@.len() as int),
{
    let ghost start = out@;
    let mut i: usize = 0;
    assert(out@ =~= start + methods_text(methods@, 0));
    while i < methods.len()
        invariant
            i <= methods@.len(),
            out@ == start + methods_text(methods@, i as int),
        decreases methods@.len() - i,
    {
        if i > 0 {
            out.append(", ");
        }
        push_method(out, &methods[i]);
        i = i + 1;
        assert(out@ =~= start + methods_text(methods@, i as int));
    }
}

fn push_input(out: &mut String, input: &InputUtxo)
    ensures
        final(out)@ == old(out)@ + input_text(*input),
{
    let ghost start = out@;
    out.append("{ storage: ");
    push_value(out, &input.storage);
    out.append(", methods: List(");
    push_methods(out, &input.methods);
    out.append(") }");
    assert(out@ =~= start + input_text(*input));
}

fn push_output(out: &mut String, output: &OutputUtxo)
    ensures
        final(out)@ == old(out)@ + output_text(*output),
{
    let ghost start = out@;
    out.append("{ utxo: ");
    push_decimal(out, output.utxo as u64);
    out.append(", storage: ");
    push_value(out, &output.storage);
    out.append(", methods: List(");
    push_methods(out, &output.methods);
    out.append(") }");
    assert(out@ =~= start + output_text(*output));
}

fn push_inputs(out: &mut String, inputs: &Vec<InputUtxo>)
    ensures
        final(out)@ == old(out)@ + inputs_text(inputs@, inputs@.len() as int),
{
    let ghost start = out@;
    let mut i: usize = 0;
    assert(out@ =~= start + inputs_text(inputs@, 0));
    while i < inputs.len()
        invariant
            i <= inputs@.len(),
            out@ == start + inputs_text(inputs@, i as int),
        decreases inputs@.len() - i,
    {
        if i > 0 {
            out.append(", ");
        }
        push_input(out, &inputs[i]);
        i = i + 1;
        assert(out@ =~= start + inputs_text(inputs@, i as int));
    }
}

fn push_outputs(out: &mut String, outputs: &Vec<OutputUtxo>)
    ensures
        final(out)@ == old(out)@ + outputs_text(outputs@, outputs@.len() as int),
{
    let ghost start = out@;
    let mut i: usize = 0;
    assert(out@ =~= start + outputs_text(outputs@, 0));
    while i < outputs.len()
        invariant
            i <= outputs@.len(),
            out@ == start + outputs_text(outputs@, i as int),
        decreases outputs@.len() - i,
    {
        if i > 0 {
            out.append(", ");
        }
        push_output(out, &outputs[i]);
        i = i + 1;
        assert(out@ =~= start + outputs_text(outputs@, i as int));
    }
}

impl RenderedModule {
    /// Whether the module replays some steps, and every step stands in its line.
    pub open spec fn replays(
        self,
        steps: Seq<Step>,
        statement: Option<TransactionStatement>,
    ) -> bool {
        &&& self.source@ == module_text(steps, statement)
        &&& self.step_lines@ == Seq::new(steps.len(), |i: int| (HEAD_LINES + 1 + i) as usize)
        &&& self.complete_line == HEAD_LINES + 1 + steps.len()
    }
}

/// The module that replays an execution.
pub fn render(trace: &Trace) -> (module: RenderedModule)
    requires
        trace.0@.len() + HEAD_LINES + 1 <= usize::MAX,
    ensures
        module.replays(trace.0@, None),
{
    render_with_statement(trace, None)
}

/// The module that replays an execution, or a transaction with its statement.
pub fn render_with_statement(trace: &Trace, statement: Option<&TransactionStatement>) -> (module:
    RenderedModule)
    requires
        trace.0@.len() + HEAD_LINES + 1 <= usize::MAX,
    ensures
        module.replays(trace.0@, crate::verify::stated(statement)),
{
    let ghost st = crate::verify::stated(statement);
    let mut source = String::new();
    source.append(
        "module replay_trace {\n  import starstream.* from \"./starstream\"\n\n  action init = { state' = ",
    );
    let ghost before = source@;
    match statement {
        None => {
            source.append("new_tx");
        },
        Some(statement) => {
            source.append("new_transaction(List(");
            push_inputs(&mut source, &statement.inputs);
            source.append("), List(");
            push_outputs(&mut source, &statement.outputs);
            source.append("))");
        },
    }
    assert(source@ =~= before + initial_text(st));
    source.append(" }\n\n  run execution_satisfies_spec = init\n");
    assert(source@ =~= head_text(st));
    let mut step_lines: Vec<usize> = Vec::new();
    let mut i: usize = 0;
    assert(source@ =~= head_text(st) + steps_text(trace.0@, 0));
    while i < trace.0.len()
        invariant
            trace.0@.len() + HEAD_LINES + 1 <= usize::MAX,
            i <= trace.0@.len(),
            source@ == head_text(st) + steps_text(trace.0@, i as int),
            step_lines@ == Seq::new(i as nat, |k: int| (HEAD_LINES + 1 + k) as usize),
        decreases trace.0@.len() - i,
    {
        step_lines.push(HEAD_LINES + 1 + i);
        push_step_line(&mut source, &trace.0[i]);
        i = i + 1;
        assert(source@ =~= head_text(st) + steps_text(trace.0@, i as int));
        assert(step_lines@ =~= Seq::new(i as nat, |k: int| (HEAD_LINES + 1 + k) as usize));
    }
    if statement.is_some() {
        source.append("    .then(transaction_complete)\n}\n");
    } else {
        source.append("    .then(execution_complete)\n}\n");
    }
    assert(source@ =~= module_text(trace.0@, st));
    RenderedModule { source, step_lines, complete_line: HEAD_LINES + 1 + i }
}

/// Number of line feeds among the first `n` characters.
pub open spec fn line_feeds(s: Seq<char>, n: int) -> int
    decreases n,
{
    if n <= 0 {
        0
    } else if s[n - 1] == '\n' {
        line_feeds(s, n - 1) + 1
    } else {
        line_feeds(s, n - 1)
    }
}

/// Whether a text is part of one line.
pub open spec fn in_line(s: Seq<char>) -> bool {
    forall|i: int| 0 <= i < s.len() ==> #[trigger] s[i] != '\n'
}

proof fn lemma_in_line(s: Seq<char>, n: int)
    requires
        in_line(s),
        n <= s.len(),
    ensures
        line_feeds(s, n) == 0,
    decreases n,
{
    if n > 0 {
        lemma_in_line(s, n - 1);
        assert(s[n - 1] != '\n');
    }
}

proof fn lemma_line_feeds_concat(a: Seq<char>, b: Seq<char>, n: int)
    requires
        0 <= n <= b.len(),
    ensures
        line_feeds(a + b, a.len() + n) == line_feeds(a, a.len() as int) + line_feeds(b, n),
    decreases n,
{
    if n > 0 {
        lemma_line_feeds_concat(a, b, n - 1);
        assert((a + b)[a.len() + n - 1] == b[n - 1]);
    } else {
        lemma_line_feeds_prefix(a, a + b, a.len() as int);
    }
}

proof fn lemma_line_feeds_prefix(a: Seq<char>, b: Seq<char>, n: int)
    requires
        0 <= n <= a.len(),
        n <= b.len(),
        forall|i: int| 0 <= i < n ==> #[trigger] a[i] == b[i],
    ensures
        line_feeds(a, n) == line_feeds(b, n),
    decreases n,
{
    if n > 0 {
        lemma_line_feeds_prefix(a, b, n - 1);
        assert(a[n - 1] == b[n - 1]);
    }
}

/// Number of line feeds of a text between two others.
proof fn lemma_line_feeds_of(a: Seq<char>, b: Seq<char>, c: Seq<char>)
    ensures
        line_feeds(a + b + c, (a + b + c).len() as int) == line_feeds(a, a.len() as int)
            + line_feeds(b, b.len() as int) + line_feeds(c, c.len() as int),
{
    lemma_line_feeds_concat(a + b, c, c.len() as int);
    lemma_line_feeds_concat(a, b, b.len() as int);
}

proof fn lemma_decimal_in_line(n: nat)
    ensures
        in_line(decimal(n)),
    decreases n,
{
    if n >= 10 {
        lemma_decimal_in_line(n / 10);
    }
}

proof fn lemma_hex_in_line(n: nat, k: nat)
    ensures
        in_line(crate::text::hex(n, k)),
    decreases k,
{
    if k > 0 {
        lemma_hex_in_line(n / 16, (k - 1) as nat);
    }
}

proof fn lemma_value_in_line(value: StarstreamValue)
    ensures
        in_line(value_text(value)),
        in_line(out_value_text(Out(value))),
{
    reveal_strlit("List(");
    reveal_strlit(", ");
    reveal_strlit(")");
    reveal_strlit("{ value: ");
    reveal_strlit(" }");
    assert forall|w: u64| in_line(#[trigger] signed_decimal(centered(w))) by {
        let n = centered(w);
        if n < 0 {
            lemma_decimal_in_line((-n) as nat);
        } else {
            lemma_decimal_in_line(n as nat);
        }
    }
    assert(in_line(signed_decimal(centered(value.0[0]))));
    assert(in_line(signed_decimal(centered(value.0[1]))));
    assert(in_line(signed_decimal(centered(value.0[2]))));
    assert(in_line(signed_decimal(centered(value.0[3]))));
}

proof fn lemma_handle_in_line(handle: ResourceHandle)
    ensures
        in_line(handle_text(handle)),
        in_line(out_handle_text(Out(handle))),
{
    reveal_strlit("{ value: ");
    reveal_strlit(" }");
    lemma_decimal_in_line(handle.0 as nat);
}

proof fn lemma_method_in_line(method: MethodHash)
    ensures
        in_line(method_text(method)),
{
    reveal_strlit("\"");
    lemma_pair_in_line(method.0[0], method.0[1]);
    lemma_pair_in_line(method.0[2], method.0[3]);
    lemma_pair_in_line(method.0[4], method.0[5]);
    lemma_pair_in_line(method.0[6], method.0[7]);
}

proof fn lemma_pair_in_line(low: u32, high: u32)
    ensures
        in_line(crate::trace::pair_text(low, high)),
{
    lemma_hex_in_line(high as nat, 8);
    lemma_hex_in_line(low as nat, 8);
}

/// Parts of one line, behind one another, are part of one line.
proof fn lemma_call1(action: Seq<char>, x: Seq<char>)
    requires
        in_line(action),
        in_line(x),
    ensures
        in_line(action + x + ")"@),
{
    reveal_strlit(")");
}

proof fn lemma_call2(action: Seq<char>, x: Seq<char>, y: Seq<char>)
    requires
        in_line(action),
        in_line(x),
        in_line(y),
    ensures
        in_line(action + x + ", "@ + y + ")"@),
{
    reveal_strlit(", ");
    reveal_strlit(")");
}

proof fn lemma_call4(
    action: Seq<char>,
    x: Seq<char>,
    y: Seq<char>,
    z: Seq<char>,
    w: Seq<char>,
)
    requires
        in_line(action),
        in_line(x),
        in_line(y),
        in_line(z),
        in_line(w),
    ensures
        in_line(action + x + ", "@ + y + ", "@ + z + ", "@ + w + ")"@),
{
    reveal_strlit(", ");
    reveal_strlit(")");
    let head = action + x + ", "@ + y;
    assert(in_line(head));
    assert(in_line(head + ", "@ + z));
}

proof fn lemma_step_in_line(step: Step)
    ensures
        in_line(step_text(step)),
{
    match step {
        Step::SetStorage { storage, resource } => {
            assert(in_line("set_storage("@)) by {
                reveal_strlit("set_storage(");
            }
            lemma_value_in_line(storage);
            lemma_handle_in_line(resource.0);
            lemma_call2("set_storage("@, value_text(storage), out_handle_text(resource));
        },
        Step::PreloadMethod { method } => {
            assert(in_line("preload_method("@)) by {
                reveal_strlit("preload_method(");
            }
            lemma_method_in_line(method);
            lemma_call1("preload_method("@, method_text(method));
        },
        Step::GetStorage { storage } => {
            assert(in_line("get_storage("@)) by {
                reveal_strlit("get_storage(");
            }
            lemma_value_in_line(storage.0);
            lemma_call1("get_storage("@, out_value_text(storage));
        },
        Step::SkipConsumed => {
            assert(in_line("skip_consumed"@)) by {
                reveal_strlit("skip_consumed");
            }
        },
        Step::ReadAbi { method } => {
            assert(in_line("read_abi("@)) by {
                reveal_strlit("read_abi(");
            }
            lemma_method_in_line(method);
            lemma_call1("read_abi("@, method_text(method));
        },
        Step::FinishTransaction => {
            assert(in_line("finish_transaction"@)) by {
                reveal_strlit("finish_transaction");
            }
        },
        Step::NewUtxo { arguments, resource } => {
            assert(in_line("new_utxo("@)) by {
                reveal_strlit("new_utxo(");
            }
            lemma_value_in_line(arguments);
            lemma_handle_in_line(resource.0);
            lemma_call2("new_utxo("@, value_text(arguments), out_handle_text(resource));
        },
        Step::EnterConstructor { arguments } => {
            assert(in_line("enter_constructor("@)) by {
                reveal_strlit("enter_constructor(");
            }
            lemma_value_in_line(arguments);
            lemma_call1("enter_constructor("@, value_text(arguments));
        },
        Step::YieldBegin => {
            assert(in_line("yield_begin"@)) by {
                reveal_strlit("yield_begin");
            }
        },
        Step::RegisterMethod { method } => {
            assert(in_line("register_method("@)) by {
                reveal_strlit("register_method(");
            }
            lemma_method_in_line(method);
            lemma_call1("register_method("@, method_text(method));
        },
        Step::Return { result } => {
            assert(in_line("return("@)) by {
                reveal_strlit("return(");
            }
            lemma_value_in_line(result.0);
            lemma_call1("return("@, out_value_text(result));
        },
        Step::CallMethod { resource, method, arguments, result } => {
            assert(in_line("call_method("@)) by {
                reveal_strlit("call_method(");
            }
            lemma_handle_in_line(resource);
            lemma_method_in_line(method);
            lemma_value_in_line(arguments);
            lemma_value_in_line(result.0);
            lemma_call4(
                "call_method("@,
                handle_text(resource),
                method_text(method),
                value_text(arguments),
                out_value_text(result),
            );
        },
        Step::EnterMethod { method, arguments } => {
            assert(in_line("enter_method("@)) by {
                reveal_strlit("enter_method(");
            }
            lemma_method_in_line(method);
            lemma_value_in_line(arguments);
            lemma_call2("enter_method("@, method_text(method), value_text(arguments));
        },
    }
}

proof fn lemma_methods_in_line(methods: Seq<MethodHash>, n: int)
    ensures
        in_line(methods_text(methods, n)),
    decreases n,
{
    reveal_strlit(", ");
    if n > 0 {
        lemma_method_in_line(methods[n - 1]);
        lemma_methods_in_line(methods, n - 1);
    }
}

proof fn lemma_input_in_line(input: InputUtxo)
    ensures
        in_line(input_text(input)),
{
    reveal_strlit("{ storage: ");
    reveal_strlit(", methods: List(");
    reveal_strlit(") }");
    lemma_value_in_line(input.storage);
    lemma_methods_in_line(input.methods@, input.methods@.len() as int);
}

proof fn lemma_output_in_line(output: OutputUtxo)
    ensures
        in_line(output_text(output)),
{
    reveal_strlit("{ utxo: ");
    reveal_strlit(", storage: ");
    reveal_strlit(", methods: List(");
    reveal_strlit(") }");
    lemma_decimal_in_line(output.utxo as nat);
    lemma_value_in_line(output.storage);
    lemma_methods_in_line(output.methods@, output.methods@.len() as int);
}

proof fn lemma_inputs_in_line(inputs: Seq<InputUtxo>, n: int)
    ensures
        in_line(inputs_text(inputs, n)),
    decreases n,
{
    reveal_strlit(", ");
    if n > 0 {
        lemma_input_in_line(inputs[n - 1]);
        lemma_inputs_in_line(inputs, n - 1);
    }
}

proof fn lemma_outputs_in_line(outputs: Seq<OutputUtxo>, n: int)
    ensures
        in_line(outputs_text(outputs, n)),
    decreases n,
{
    reveal_strlit(", ");
    if n > 0 {
        lemma_output_in_line(outputs[n - 1]);
        lemma_outputs_in_line(outputs, n - 1);
    }
}

proof fn lemma_initial_in_line(statement: Option<TransactionStatement>)
    ensures
        in_line(initial_text(statement)),
{
    reveal_strlit("new_tx");
    reveal_strlit("new_transaction(List(");
    reveal_strlit("), List(");
    reveal_strlit("))");
    if let Some(st) = statement {
        lemma_inputs_in_line(st.inputs@, st.inputs@.len() as int);
        lemma_outputs_in_line(st.outputs@, st.outputs@.len() as int);
    }
}

/// The lines before that of step `i`.
pub open spec fn before_step(
    steps: Seq<Step>,
    statement: Option<TransactionStatement>,
    i: int,
) -> Seq<char> {
    head_text(statement) + steps_text(steps, i)
}

proof fn lemma_head_lines(statement: Option<TransactionStatement>)
    ensures
        line_feeds(head_text(statement), head_text(statement).len() as int) == HEAD_LINES,
{
    let a = "module replay_trace {\n  import starstream.* from \"./starstream\"\n\n  action init = { state' = "@;
    let b = initial_text(statement);
    let c = " }\n\n  run execution_satisfies_spec = init\n"@;
    lemma_initial_in_line(statement);
    lemma_in_line(b, b.len() as int);
    lemma_line_feeds_of(a, b, c);
    lemma_head_literals();
}

#[verifier::rlimit(60)]
proof fn lemma_head_literals()
    ensures
        line_feeds(
            "module replay_trace {\n  import starstream.* from \"./starstream\"\n\n  action init = { state' = "@,
            "module replay_trace {\n  import starstream.* from \"./starstream\"\n\n  action init = { state' = "@.len() as int,
        ) == 3,
        line_feeds(
            " }\n\n  run execution_satisfies_spec = init\n"@,
            " }\n\n  run execution_satisfies_spec = init\n"@.len() as int,
        ) == 3,
{
    reveal_strlit(
        "module replay_trace {\n  import starstream.* from \"./starstream\"\n\n  action init = { state' = ",
    );
    reveal_strlit(" }\n\n  run execution_satisfies_spec = init\n");
    reveal_with_fuel(line_feeds, 100);
}

proof fn lemma_step_is_a_line(step: Step)
    ensures
        line_feeds(step_line(step), step_line(step).len() as int) == 1,
{
    let a = "    .then("@;
    let b = step_text(step);
    let c = ")\n"@;
    assert(in_line(a)) by {
        reveal_strlit("    .then(");
    }
    lemma_in_line(a, a.len() as int);
    lemma_step_in_line(step);
    lemma_in_line(b, b.len() as int);
    lemma_line_feeds_of(a, b, c);
    assert(line_feeds(c, c.len() as int) == 1) by {
        reveal_strlit(")\n");
        reveal_with_fuel(line_feeds, 3);
    }
}

/// Every step stands in the line that is recorded for it, and what the chain of steps
/// ends with in the line behind the last one.
#[verifier::rlimit(60)]
pub proof fn law_steps_stand_in_their_lines(
    steps: Seq<Step>,
    statement: Option<TransactionStatement>,
    i: int,
)
    requires
        0 <= i <= steps.len(),
    ensures
        line_feeds(before_step(steps, statement, i), before_step(steps, statement, i).len() as int)
            == HEAD_LINES + i,
        i < steps.len() ==> before_step(steps, statement, i + 1) == before_step(
            steps,
            statement,
            i,
        ) + step_line(steps[i]),
        module_text(steps, statement) == before_step(steps, statement, steps.len() as int)
            + tail_text(statement),
    decreases i,
{
    let head = head_text(statement);
    lemma_head_lines(statement);
    if i > 0 {
        law_steps_stand_in_their_lines(steps, statement, i - 1);
        let before = before_step(steps, statement, i - 1);
        let line = step_line(steps[i - 1]);
        assert(before_step(steps, statement, i) =~= before + line);
        lemma_line_feeds_concat(before, line, line.len() as int);
        lemma_step_is_a_line(steps[i - 1]);
    } else {
        assert(before_step(steps, statement, 0) =~= head);
    }
    if i < steps.len() {
        assert(before_step(steps, statement, i + 1) =~= before_step(steps, statement, i)
            + step_line(steps[i]));
    }
}

/// What a run of Quint left behind.
#[derive(Clone, Debug, PartialEq, Eq)]
pub struct RunOutput {
    pub success: bool,
    pub stdout: String,
    pub stderr: String,
}

/// A module and the report of a run that failed on it.
#[derive(Clone, Debug, PartialEq, Eq)]
pub struct VerificationFailure {
    pub generated_source: String,
    pub stdout: String,
    pub stderr: String,
}

/// Why a replay did not succeed.
#[derive(Clone, Debug, PartialEq, Eq)]
pub enum QuintError {
    /// The specification could not be copied.
    StageSpec { from: String, into: String, source: String },
    /// The generated module could not be written.
    WriteModule { path: String, source: String },
    /// The Quint executable could not be run.
    Invoke { program: String, source: String },
    /// The generated module does not typecheck.
    Typecheck(Box<VerificationFailure>),
    /// A step is not enabled.
    RejectedStep { index: usize, step: Box<Step>, failure: Box<VerificationFailure> },
    /// The trace does not reach a complete state.
    IncompleteExecution(Box<VerificationFailure>),
    /// The trace is rejected for a reason that the report does not tell.
    Rejected(Box<VerificationFailure>),
    /// The replay was not run.
    NotRun(Box<VerificationFailure>),
    /// The Quint executable has another version than the pinned one.
    VersionMismatch { command: String, found: String, pinned: String },
    /// There is no Quint executable that runs.
    NoQuint { command: String, pinned: String },
}

/// A stream of a report under its heading; nothing for a blank one.
pub open spec fn stream_text(heading: Seq<char>, stream: Seq<char>) -> Seq<char> {
    if trimmed(stream).len() == 0 {
        seq![]
    } else {
        heading + stream
    }
}

impl VerificationFailure {
    /// Whether the failure holds a module and the streams of a run.
    pub open spec fn holds(self, module: RenderedModule, output: RunOutput) -> bool {
        &&& self.generated_source@ == module.source@
        &&& self.stdout@ == output.stdout@
        &&& self.stderr@ == output.stderr@
    }

    /// The module and the streams that are not blank, each under its heading.
    pub fn to_text(&self) -> (text: String)
        ensures
            text@ == "--- generated module ---\n"@ + self.generated_source@ + stream_text(
                "--- quint stdout ---\n"@,
                self.stdout@,
            ) + stream_text("--- quint stderr ---\n"@, self.stderr@),
    {
        let mut text = String::new();
        text.append("--- generated module ---\n");
        text.append(self.generated_source.as_str());
        let ghost first = text@;
        if trim(&chars_of(self.stdout.as_str())).len() > 0 {
            text.append("--- quint stdout ---\n");
            text.append(self.stdout.as_str());
        }
        assert(text@ =~= first + stream_text("--- quint stdout ---\n"@, self.stdout@));
        let ghost second = text@;
        if trim(&chars_of(self.stderr.as_str())).len() > 0 {
            text.append("--- quint stderr ---\n");
            text.append(self.stderr.as_str());
        }
        assert(text@ =~= second + stream_text("--- quint stderr ---\n"@, self.stderr@));
        assert(first =~= "--- generated module ---\n"@ + self.generated_source@);
        text
    }
}

/// What a failed replay means.
#[derive(Clone, Copy, Debug, PartialEq, Eq)]
pub enum Rejection {
    /// The step is not enabled.
    Step(usize),
    /// Every step ran, and the state is not complete.
    Incomplete,
}

/// The lines of a report.
pub open spec fn report_lines(stdout: Seq<char>, stderr: Seq<char>) -> Seq<Seq<char>> {
    lines(stdout) + lines(stderr)
}

/// Place of the first line, from `i` on, that reports a failed run; the number of
/// lines where there is none.
pub open spec fn error_line(report: Seq<Seq<char>>, i: int) -> int
    decreases report.len() - i,
{
    if i < 0 || i >= report.len() || has(report[i], "Error [QNT51"@) {
        i
    } else {
        error_line(report, i + 1)
    }
}

/// The source line that a line of a report points at.
pub open spec fn pointed(line: Seq<char>) -> Option<usize> {
    let text = trimmed(line);
    if has_at(text, "at "@, 0) {
        location_line(text.skip("at "@.len() as int))
    } else {
        None
    }
}

/// The first source line that the lines from `i` on point at, of at most `n` lines.
pub open spec fn location(report: Seq<Seq<char>>, i: int, n: int) -> Option<usize>
    decreases n,
{
    if n <= 0 || i < 0 || i >= report.len() {
        None
    } else if pointed(report[i]) is Some {
        pointed(report[i])
    } else {
        location(report, i + 1, n - 1)
    }
}

/// Place of the first line number, from `i` on, that is `line`; none where there is no
/// such place.
pub open spec fn step_at(step_lines: Seq<usize>, line: usize, i: int) -> Option<usize>
    decreases step_lines.len() - i,
{
    if i < 0 || i >= step_lines.len() {
        None
    } else if step_lines[i] == line {
        Some(i as usize)
    } else {
        step_at(step_lines, line, i + 1)
    }
}

/// What a report says of a replay. Code `QNT511` means that the chain of steps ran to
/// its end and left the state incomplete; any other code of its kind points, within
/// four lines, at the source line of what is not enabled.
pub open spec fn diagnosis(
    report: Seq<Seq<char>>,
    step_lines: Seq<usize>,
    complete_line: usize,
) -> Option<Rejection> {
    let k = error_line(report, 0);
    if k >= report.len() {
        None
    } else if has(report[k], "Error [QNT511]"@) {
        Some(Rejection::Incomplete)
    } else {
        match location(report, k + 1, 4) {
            None => None,
            Some(line) => if line == complete_line {
                Some(Rejection::Incomplete)
            } else {
                match step_at(step_lines, line, 0) {
                    Some(index) => Some(Rejection::Step(index)),
                    None => None,
                }
            },
        }
    }
}

/// Whether line `k` of a report is its first that reports a failed run.
pub open spec fn fails_first_at(report: Seq<Seq<char>>, k: int) -> bool {
    &&& 0 <= k < report.len()
    &&& has(report[k], "Error [QNT51"@)
    &&& forall|j: int| 0 <= j < k ==> !crate::text::has(#[trigger] report[j], "Error [QNT51"@)
}

/// Whether a report points at a source line: of the four lines behind its first one that
/// reports a failed run, which does not have code `QNT511`, the first that points
/// anywhere points there.
pub open spec fn points_at(report: Seq<Seq<char>>, line: usize) -> bool {
    exists|k: int, m: int|
        {
            &&& #[trigger] fails_first_at(report, k)
            &&& !crate::text::has(report[k], "Error [QNT511]"@)
            &&& k < m <= k + 4
            &&& m < report.len()
            &&& #[trigger] pointed(report[m]) == Some(line)
            &&& forall|j: int| k < j < m ==> pointed(#[trigger] report[j]) is None
        }
}

/// The first place of a line number is the one that is found, and there is none only
/// where the number has no place.
proof fn lemma_step_at(step_lines: Seq<usize>, line: usize, i: int)
    requires
        0 <= i <= step_lines.len() <= usize::MAX,
    ensures
        step_at(step_lines, line, i) matches Some(k) ==> i <= k < step_lines.len()
            && step_lines[k as int] == line,
        forall|k: int|
            i <= k < step_lines.len() && step_lines[k] == line ==> (step_at(step_lines, line, i)
                matches Some(first) && first <= k),
    decreases step_lines.len() - i,
{
    if i < step_lines.len() && step_lines[i] != line {
        lemma_step_at(step_lines, line, i + 1);
    }
}

proof fn lemma_error_line(report: Seq<Seq<char>>, i: int)
    requires
        0 <= i <= report.len(),
    ensures
        i <= error_line(report, i) <= report.len(),
        forall|j: int|
            i <= j < error_line(report, i) ==> !crate::text::has(#[trigger] report[j], "Error [QNT51"@),
        error_line(report, i) < report.len() ==> has(
            report[error_line(report, i)],
            "Error [QNT51"@,
        ),
    decreases report.len() - i,
{
    if i < report.len() && !crate::text::has(report[i], "Error [QNT51"@) {
        lemma_error_line(report, i + 1);
    }
}

proof fn lemma_location(report: Seq<Seq<char>>, i: int, n: int)
    requires
        0 <= i,
    ensures
        location(report, i, n) is Some ==> exists|m: int|
            i <= m < i + n && m < report.len() && #[trigger] pointed(report[m]) == location(
                report,
                i,
                n,
            ) && forall|j: int| i <= j < m ==> pointed(#[trigger] report[j]) is None,
        location(report, i, n) is None ==> forall|m: int|
            i <= m < i + n && m < report.len() ==> pointed(#[trigger] report[m]) is None,
    decreases n,
{
    if n > 0 && i < report.len() && pointed(report[i]) is None {
        lemma_location(report, i + 1, n - 1);
        if location(report, i, n) is Some {
            let m = choose|m: int|
                i + 1 <= m < i + n && m < report.len() && #[trigger] pointed(report[m])
                    == location(report, i + 1, n - 1) && forall|j: int|
                    i + 1 <= j < m ==> pointed(#[trigger] report[j]) is None;
            assert(pointed(report[m]) == location(report, i, n));
        }
    }
}

/// A report points at one source line at most.
proof fn lemma_points_once(report: Seq<Seq<char>>, a: usize, b: usize)
    requires
        points_at(report, a),
        points_at(report, b),
    ensures
        a == b,
{
    let (k, m) = choose|k: int, m: int|
        {
            &&& #[trigger] fails_first_at(report, k)
            &&& !crate::text::has(report[k], "Error [QNT511]"@)
            &&& k < m <= k + 4
            &&& m < report.len()
            &&& #[trigger] pointed(report[m]) == Some(a)
            &&& forall|j: int| k < j < m ==> pointed(#[trigger] report[j]) is None
        };
    let (k2, m2) = choose|k: int, m: int|
        {
            &&& #[trigger] fails_first_at(report, k)
            &&& !crate::text::has(report[k], "Error [QNT511]"@)
            &&& k < m <= k + 4
            &&& m < report.len()
            &&& #[trigger] pointed(report[m]) == Some(b)
            &&& forall|j: int| k < j < m ==> pointed(#[trigger] report[j]) is None
        };
    assert(k == k2) by {
        if k < k2 {
            assert(has(report[k], "Error [QNT51"@));
        } else if k2 < k {
            assert(has(report[k2], "Error [QNT51"@));
        }
    }
    if m < m2 {
        assert(pointed(report[m]) is None);
    } else if m2 < m {
        assert(pointed(report[m2]) is None);
    }
}

/// What a report says of a replay follows from where it points. It rejects a step exactly
/// where it points at the line of that step and of no earlier one, and not at the line
/// behind the steps. It finds the execution incomplete exactly where it has code `QNT511`
/// or points at the line behind the steps. So it says nothing only where it points at
/// none of these lines.
pub proof fn law_rejections_are_attributed(
    report: Seq<Seq<char>>,
    step_lines: Seq<usize>,
    complete_line: usize,
)
    requires
        step_lines.len() <= usize::MAX,
    ensures
        forall|i: int, line: usize|
            0 <= i < step_lines.len() && #[trigger] step_lines[i] == line && line != complete_line
                && #[trigger] points_at(report, line) && (forall|j: int|
                0 <= j < i ==> step_lines[j] != line) ==> diagnosis(
                report,
                step_lines,
                complete_line,
            ) == Some(Rejection::Step(i as usize)),
        diagnosis(report, step_lines, complete_line) matches Some(Rejection::Step(i)) ==> {
            &&& i < step_lines.len()
            &&& step_lines[i as int] != complete_line
            &&& points_at(report, step_lines[i as int])
            &&& forall|j: int| 0 <= j < i ==> step_lines[j] != step_lines[i as int]
        },
        diagnosis(report, step_lines, complete_line) == Some(Rejection::Incomplete) <==> points_at(
            report,
            complete_line,
        ) || exists|k: int| #[trigger]
            fails_first_at(report, k) && has(report[k], "Error [QNT511]"@),
        diagnosis(report, step_lines, complete_line) is None <==> {
            &&& forall|k: int| #[trigger]
                fails_first_at(report, k) ==> !crate::text::has(report[k], "Error [QNT511]"@)
            &&& forall|line: usize| #[trigger]
                points_at(report, line) ==> line != complete_line && !step_lines.contains(line)
        },
{
    let k = error_line(report, 0);
    lemma_error_line(report, 0);
    assert forall|q: int| #[trigger] fails_first_at(report, q) implies q == k by {
        if q < k {
            assert(has(report[q], "Error [QNT51"@));
        } else if k < q {
            assert(has(report[k], "Error [QNT51"@));
        }
    }
    if k < report.len() {
        assert(fails_first_at(report, k));
        lemma_location(report, k + 1, 4);
        match location(report, k + 1, 4) {
            Some(line) => {
                if !crate::text::has(report[k], "Error [QNT511]"@) {
                    let m = choose|m: int|
                        k + 1 <= m < k + 1 + 4 && m < report.len() && #[trigger] pointed(
                            report[m],
                        ) == location(report, k + 1, 4) && forall|j: int|
                            k + 1 <= j < m ==> pointed(#[trigger] report[j]) is None;
                    assert(pointed(report[m]) == Some(line));
                    assert(points_at(report, line));
                    assert forall|other: usize| #[trigger] points_at(report, other) implies other
                        == line by {
                        lemma_points_once(report, other, line);
                    }
                }
                lemma_step_at(step_lines, line, 0);
            },
            None => {},
        }
    }
}

/// The source line that a line of a report points at.
fn pointed_line(line: &Vec<char>) -> (r: Option<usize>)
    ensures
        r == pointed(line@),
{
    match strip_prefix(&trim(line), "at ") {
        Some(rest) => source_line(&rest),
        None => None,
    }
}

/// Place of the first line number that is `line`.
fn find_step(step_lines: &Vec<usize>, line: usize) -> (r: Option<usize>)
    ensures
        r == step_at(step_lines@, line, 0),
        r matches Some(index) ==> {
            &&& index < step_lines@.len()
            &&& step_lines@[index as int] == line
            &&& forall|j: int| 0 <= j < index ==> step_lines@[j] != line
        },
        r is None ==> !step_lines@.contains(line),
{
    let mut i: usize = 0;
    while i < step_lines.len()
        invariant
            i <= step_lines@.len(),
            forall|j: int| 0 <= j < i ==> step_lines@[j] != line,
            step_at(step_lines@, line, 0) == step_at(step_lines@, line, i as int),
        decreases step_lines@.len() - i,
    {
        if step_lines[i] == line {
            return Some(i);
        }
        i = i + 1;
    }
    None
}

/// [`diagnosis`] of the report of a failed replay.
pub fn diagnose(failure: &VerificationFailure, module: &RenderedModule) -> (rejection: Option<
    Rejection,
>)
    ensures
        rejection == diagnosis(
            report_lines(failure.stdout@, failure.stderr@),
            module.step_lines@,
            module.complete_line,
        ),
        rejection matches Some(Rejection::Step(index)) ==> {
            &&& index < module.step_lines@.len()
            &&& points_at(
                report_lines(failure.stdout@, failure.stderr@),
                module.step_lines@[index as int],
            )
            &&& module.step_lines@[index as int] != module.complete_line
            &&& forall|j: int|
                0 <= j < index ==> module.step_lines@[j] != module.step_lines@[index as int]
        },
        rejection is None ==> forall|line: usize|
            #[trigger] points_at(report_lines(failure.stdout@, failure.stderr@), line) ==> line
                != module.complete_line && !module.step_lines@.contains(line),
{
    proof {
        assert(module.step_lines.len() <= usize::MAX);
        law_rejections_are_attributed(
            report_lines(failure.stdout@, failure.stderr@),
            module.step_lines@,
            module.complete_line,
        );
    }
    let mut report: Vec<Vec<char>> = Vec::new();
    push_lines(&mut report, &chars_of(failure.stdout.as_str()));
    push_lines(&mut report, &chars_of(failure.stderr.as_str()));
    let ghost all = report_lines(failure.stdout@, failure.stderr@);
    assert(text_views(report@) =~= all);
    let count = report.len();
    assert(all.len() == count);
    let mut k: usize = 0;
    while k < count && !contains(&report[k], "Error [QNT51")
        invariant
            count == report@.len(),
            text_views(report@) == all,
            k <= count,
            error_line(all, 0) == error_line(all, k as int),
        decreases count - k,
    {
        assert(all[k as int] == report@[k as int]@);
        k = k + 1;
    }
    if k == count {
        return None;
    }
    assert(all[k as int] == report@[k as int]@);
    assert(error_line(all, 0) == k);
    if contains(&report[k], "Error [QNT511]") {
        return Some(Rejection::Incomplete);
    }
    let mut found: Option<usize> = None;
    let mut n: usize = 0;
    while n < 4 && found.is_none() && n < count - k - 1
        invariant
            count == report@.len(),
            text_views(report@) == all,
            k < count,
            n <= 4,
            n <= count - k - 1,
            found is None ==> location(all, k + 1, 4) == location(all, k + 1 + n, 4 - n),
            found is Some ==> location(all, k + 1, 4) == found,
        decreases 4 - n,
    {
        assert(all[k + 1 + n] == report@[k + 1 + n]@);
        found = pointed_line(&report[k + 1 + n]);
        n = n + 1;
    }
    assert(location(all, k + 1, 4) == found);
    match found {
        None => None,
        Some(line) => {
            if line == module.complete_line {
                return Some(Rejection::Incomplete);
            }
            match find_step(&module.step_lines, line) {
                Some(index) => Some(Rejection::Step(index)),
                None => None,
            }
        },
    }
}

impl RenderedModule {
    /// A failure of a run on the module.
    pub fn failure(&self, output: &RunOutput) -> (failure: Box<VerificationFailure>)
        ensures
            failure.holds(*self, *output),
    {
        Box::new(
            VerificationFailure {
                generated_source: self.source.clone(),
                stdout: output.stdout.clone(),
                stderr: output.stderr.clone(),
            },
        )
    }
}

/// Whether a replay is over with the run that typechecks its module.
pub fn conclude_typecheck(module: &RenderedModule, typecheck: &RunOutput) -> (result: Result<
    (),
    QuintError,
>)
    ensures
        result is Ok <==> typecheck.success,
        result matches Err(error) ==> (error matches QuintError::Typecheck(failure)
            && failure.holds(*module, *typecheck)),
{
    if typecheck.success {
        Ok(())
    } else {
        Err(QuintError::Typecheck(module.failure(typecheck)))
    }
}

/// Outcome of a replay, from the run that replays its module and whether that run left
/// an execution behind.
pub fn conclude_test(trace: &Trace, module: &RenderedModule, test: &RunOutput, ran: bool) -> (result:
    Result<(), QuintError>)
    requires
        module.step_lines@.len() == trace.0@.len(),
    ensures
        result is Ok <==> test.success && ran,
        test.success && !ran ==> (result matches Err(QuintError::NotRun(failure))
            && failure.holds(*module, *test)),
        !test.success ==> match diagnosis(
            report_lines(test.stdout@, test.stderr@),
            module.step_lines@,
            module.complete_line,
        ) {
            Some(Rejection::Step(i)) => result matches Err(
                QuintError::RejectedStep { index, step, failure },
            ) && index == i && *step == trace.0@[i as int] && failure.holds(*module, *test),
            Some(Rejection::Incomplete) => result matches Err(
                QuintError::IncompleteExecution(failure),
            ) && failure.holds(*module, *test),
            None => result matches Err(QuintError::Rejected(failure)) && failure.holds(
                *module,
                *test,
            ),
        },
{
    if !test.success {
        let failure = module.failure(test);
        return Err(
            match diagnose(&failure, module) {
                Some(Rejection::Step(index)) => QuintError::RejectedStep {
                    index,
                    step: Box::new(trace.0[index]),
                    failure,
                },
                Some(Rejection::Incomplete) => QuintError::IncompleteExecution(failure),
                None => QuintError::Rejected(failure),
            },
        );
    }
    if !ran {
        return Err(QuintError::NotRun(module.failure(test)));
    }
    Ok(())
}

/// Whether a run left an execution behind: a file whose name starts with its prefix.
pub fn ran_any_test(names: &Vec<String>, prefix: &str) -> (ran: bool)
    ensures
        ran == (exists|i: int|
            0 <= i < names@.len() && has_at((#[trigger] names@[i])@, prefix@, 0)),
{
    let wanted = chars_of(prefix);
    let mut i: usize = 0;
    while i < names.len()
        invariant
            wanted@ == prefix@,
            i <= names@.len(),
            forall|j: int| 0 <= j < i ==> !has_at((#[trigger] names@[j])@, prefix@, 0),
        decreases names@.len() - i,
    {
        if matches_at(&chars_of(names[i].as_str()), &wanted, 0) {
            assert(has_at(names@[i as int]@, prefix@, 0));
            return true;
        }
        i = i + 1;
    }
    false
}

/// Name of the file that module number `id` is written to.
pub fn module_file(id: u64) -> (name: String)
    ensures
        name@ == "replay_"@ + decimal(id as nat) + ".qnt"@,
{
    let mut name = String::new();
    name.append("replay_");
    push_decimal(&mut name, id);
    name.append(".qnt");
    assert(name@ =~= "replay_"@ + decimal(id as nat) + ".qnt"@);
    name
}

/// Prefix of the names of the executions of module number `id`.
pub fn itf_prefix(id: u64) -> (prefix: String)
    ensures
        prefix@ == "itf_"@ + decimal(id as nat) + "_"@,
{
    let mut prefix = String::new();
    prefix.append("itf_");
    push_decimal(&mut prefix, id);
    prefix.append("_");
    assert(prefix@ =~= "itf_"@ + decimal(id as nat) + "_"@);
    prefix
}

/// Pattern of the names of executions with a prefix.
pub fn itf_pattern(prefix: &str) -> (pattern: String)
    ensures
        pattern@ == prefix@ + "{test}_{seq}.json"@,
{
    let mut pattern = String::new();
    pattern.append(prefix);
    pattern.append("{test}_{seq}.json");
    assert(pattern@ =~= prefix@ + "{test}_{seq}.json"@);
    pattern
}

/// What a list of texts is.
pub open spec fn string_views(texts: Seq<String>) -> Seq<Seq<char>> {
    Seq::new(texts.len(), |i: int| texts[i]@)
}

/// Arguments of the run that typechecks a module.
pub fn typecheck_arguments(module: &str) -> (arguments: Vec<String>)
    ensures
        string_views(arguments@) == seq!["typecheck"@, module@],
{
    let arguments = vec!["typecheck".to_owned(), module.to_owned()];
    assert(string_views(arguments@) =~= seq!["typecheck"@, module@]);
    arguments
}

/// Arguments of the run that replays a module.
pub fn test_arguments(module: &str, pattern: &str) -> (arguments: Vec<String>)
    ensures
        string_views(arguments@) == seq![
            "test"@,
            module@,
            "--main=replay_trace"@,
            "--match=execution_satisfies_spec"@,
            "--out-itf="@ + pattern@,
            "--verbosity=3"@,
            "--backend=typescript"@,
        ],
{
    let mut out = "--out-itf=".to_owned();
    out.append(pattern);
    let arguments = vec![
        "test".to_owned(),
        module.to_owned(),
        "--main=replay_trace".to_owned(),
        "--match=execution_satisfies_spec".to_owned(),
        out,
        "--verbosity=3".to_owned(),
        "--backend=typescript".to_owned(),
    ];
    assert(string_views(arguments@) =~= seq![
        "test"@,
        module@,
        "--main=replay_trace"@,
        "--match=execution_satisfies_spec"@,
        "--out-itf="@ + pattern@,
        "--verbosity=3"@,
        "--backend=typescript"@,
    ]);
    arguments
}

/// The version that an executable reports, from the run that asks for it; none where
/// it did not run or did not succeed.
pub fn installed_version(run: Option<RunOutput>) -> (version: Option<String>)
    ensures
        version is Some <==> (run matches Some(output) && output.success),
        version matches Some(text) ==> text@ == trimmed(run->0.stdout@),
{
    match run {
        Some(output) => {
            if output.success {
                Some(trim_text(output.stdout.as_str()))
            } else {
                None
            }
        },
        None => None,
    }
}

/// Check the version of an executable against the pinned one.
pub fn check_pinned_version(command: &str, found: Option<String>, pinned: &String) -> (result: Result<
    (),
    QuintError,
>)
    ensures
        result is Ok <==> (found matches Some(version) && version@ == pinned@),
        found is Some && (found->0)@ != pinned@ ==> (result matches Err(
            QuintError::VersionMismatch { command: c, found: f, pinned: p },
        ) && c@ == command@ && f@ == (found->0)@ && p@ == pinned@),
        found is None ==> (result matches Err(QuintError::NoQuint { command: c, pinned: p }) && c@
            == command@ && p@ == pinned@),
{
    match found {
        Some(version) => {
            if version == *pinned {
                Ok(())
            } else {
                Err(
                    QuintError::VersionMismatch {
                        command: command.to_owned(),
                        found: version,
                        pinned: pinned.clone(),
                    },
                )
            }
        },
        None => Err(QuintError::NoQuint { command: command.to_owned(), pinned: pinned.clone() }),
    }
}

/// The text that a JSON document has in member `inner` of its member `outer`; nothing
/// where the document does not parse or has no text there.
pub uninterp spec fn json_text(
    document: Seq<char>,
    outer: Seq<char>,
    inner: Seq<char>,
) -> Option<Seq<char>>;

/// `serde_json::from_str` into a `Value`, two members of it and its text: what
/// [`json_text`] names.
#[verifier::external_body]
fn json_member(document: &str, outer: &str, inner: &str) -> (text: Option<String>)
    ensures
        text is Some <==> json_text(document@, outer@, inner@) is Some,
        text matches Some(found) ==> json_text(document@, outer@, inner@) == Some(found@),
{
    let value: serde_json::Value = serde_json::from_str(document).ok()?;
    value[outer][inner].as_str().map(str::to_owned)
}

/// The version of Quint that a package manifest pins; nothing where it pins none.
pub fn pinned_version(manifest: &str) -> (version: Option<String>)
    ensures
        version is Some <==> json_text(
            manifest@,
            "devDependencies"@,
            "@informalsystems/quint"@,
        ) is Some,
        version matches Some(text) ==> json_text(
            manifest@,
            "devDependencies"@,
            "@informalsystems/quint"@,
        ) == Some(text@),
{
    json_member(manifest, "devDependencies", "@informalsystems/quint")
}

} // verus!
