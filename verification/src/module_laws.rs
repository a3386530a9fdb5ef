//! A rendered module tells executions and statements apart: whatever is replayed is found
//! again in the text that replays it.

use vstd::prelude::*;

use crate::events::lemma_same_words;
use crate::protocol::{is_canonical, names_canonical_values};
use crate::quint::{
    centered, handle_text, initial_text, input_text, inputs_text, law_centered_words_restore,
    method_text, methods_text, module_text, out_handle_text, out_value_text, output_text,
    outputs_text, step_text, steps_text, tail_text, value_text,
};
use crate::render_laws::{
    law_digits_tell_methods_apart, law_input_lists_are_joined, law_limbs_are_read_back,
    law_method_lists_are_joined, law_output_lists_are_joined, law_step_lines_are_joined, separator,
};
use crate::text::{decimal, signed_decimal};
use crate::text_laws::{law_decimals_are_read_back, law_signed_decimals_are_read_back};
use crate::trace::{
    InputUtxo, MethodHash, Out, OutputUtxo, ResourceHandle, StarstreamValue, Step,
    TransactionStatement,
};

verus! {

/// Behind the same text the rest is the same.
proof fn lemma_cancel(p: Seq<char>, x: Seq<char>, y: Seq<char>)
    requires
        p + x == p + y,
    ensures
        x == y,
{
    assert((p + x).skip(p.len() as int) =~= x);
    assert((p + y).skip(p.len() as int) =~= y);
}

/// Behind texts of the same length the rest is the same, and so are the texts.
proof fn lemma_split(p: Seq<char>, x: Seq<char>, q: Seq<char>, y: Seq<char>)
    requires
        p + x == q + y,
        p.len() == q.len(),
    ensures
        p == q,
        x == y,
{
    assert((p + x).take(p.len() as int) =~= p);
    assert((q + y).take(q.len() as int) =~= q);
    lemma_cancel(p, x, y);
}

/// Whether a character may stand in a number.
spec fn numeric(c: char) -> bool {
    '0' <= c <= '9' || c == '-'
}

/// Whether a text goes on with something else than a number.
spec fn ends_number(s: Seq<char>) -> bool {
    s.len() > 0 && !numeric(s[0])
}

/// A number ends where the next character is none of a number.
proof fn lemma_number_ends(p: Seq<char>, x: Seq<char>, q: Seq<char>, y: Seq<char>)
    requires
        p + x == q + y,
        forall|i: int| 0 <= i < p.len() ==> numeric(#[trigger] p[i]),
        forall|i: int| 0 <= i < q.len() ==> numeric(#[trigger] q[i]),
        ends_number(x),
        ends_number(y),
    ensures
        p == q,
        x == y,
{
    let m = p.len() as int;
    let n = q.len() as int;
    if m < n {
        assert((p + x)[m] == x[0]);
        assert((q + y)[m] == q[m]);
    } else if n < m {
        assert((q + y)[n] == y[0]);
        assert((p + x)[n] == p[n]);
    }
    lemma_split(p, x, q, y);
}

proof fn lemma_decimals(a: nat, x: Seq<char>, b: nat, y: Seq<char>)
    requires
        decimal(a) + x == decimal(b) + y,
        ends_number(x),
        ends_number(y),
    ensures
        a == b,
        x == y,
{
    law_decimals_are_read_back(a);
    law_decimals_are_read_back(b);
    lemma_number_ends(decimal(a), x, decimal(b), y);
}

/// The word as a number of the model.
spec fn word_text(word: u64) -> Seq<char> {
    signed_decimal(centered(word))
}

proof fn lemma_words(a: u64, x: Seq<char>, b: u64, y: Seq<char>)
    requires
        word_text(a) + x == word_text(b) + y,
        a < crate::field::FIELD_MODULUS,
        b < crate::field::FIELD_MODULUS,
        ends_number(x),
        ends_number(y),
    ensures
        a == b,
        x == y,
{
    law_signed_decimals_are_read_back(centered(a));
    law_signed_decimals_are_read_back(centered(b));
    lemma_number_ends(word_text(a), x, word_text(b), y);
    law_centered_words_restore(a);
    law_centered_words_restore(b);
}

/// The text of a value and what comes behind it, word by word.
spec fn value_parts(value: StarstreamValue, x: Seq<char>, i: int) -> Seq<char>
    decreases 4 - i,
{
    if i < 0 || i >= 4 {
        ")"@ + x
    } else if i == 3 {
        word_text(value.0[3]) + value_parts(value, x, 4)
    } else {
        word_text(value.0[i]) + (", "@ + value_parts(value, x, i + 1))
    }
}

proof fn lemma_value_parts(value: StarstreamValue, x: Seq<char>)
    ensures
        value_text(value) + x == "List("@ + value_parts(value, x, 0),
{
    reveal_with_fuel(value_parts, 5);
    assert(value_text(value) + x =~= "List("@ + (word_text(value.0[0]) + (", "@ + (word_text(
        value.0[1],
    ) + (", "@ + (word_text(value.0[2]) + (", "@ + (word_text(value.0[3]) + (")"@ + x)))))))));
}

proof fn lemma_values_from(
    a: StarstreamValue,
    x: Seq<char>,
    b: StarstreamValue,
    y: Seq<char>,
    i: int,
)
    requires
        0 <= i <= 4,
        is_canonical(a),
        is_canonical(b),
        value_parts(a, x, i) == value_parts(b, y, i),
    ensures
        forall|j: int| i <= j < 4 ==> #[trigger] a.0[j] == b.0[j],
        x == y,
    decreases 4 - i,
{
    reveal_strlit(", ");
    reveal_strlit(")");
    if i == 4 {
        lemma_cancel(")"@, x, y);
    } else if i == 3 {
        lemma_words(a.0[3], value_parts(a, x, 4), b.0[3], value_parts(b, y, 4));
        lemma_values_from(a, x, b, y, 4);
    } else {
        let v = value_parts(a, x, i + 1);
        let w = value_parts(b, y, i + 1);
        lemma_words(a.0[i], ", "@ + v, b.0[i], ", "@ + w);
        lemma_cancel(", "@, v, w);
        lemma_values_from(a, x, b, y, i + 1);
    }
}

proof fn lemma_values(a: StarstreamValue, x: Seq<char>, b: StarstreamValue, y: Seq<char>)
    requires
        value_text(a) + x == value_text(b) + y,
        is_canonical(a),
        is_canonical(b),
    ensures
        a == b,
        x == y,
{
    lemma_value_parts(a, x);
    lemma_value_parts(b, y);
    lemma_cancel("List("@, value_parts(a, x, 0), value_parts(b, y, 0));
    lemma_values_from(a, x, b, y, 0);
    lemma_same_words(a, b);
}

proof fn lemma_out_values(
    a: Out<StarstreamValue>,
    x: Seq<char>,
    b: Out<StarstreamValue>,
    y: Seq<char>,
)
    requires
        out_value_text(a) + x == out_value_text(b) + y,
        is_canonical(a.0),
        is_canonical(b.0),
    ensures
        a == b,
        x == y,
{
    let v = value_text(a.0) + (" }"@ + x);
    let w = value_text(b.0) + (" }"@ + y);
    assert(out_value_text(a) + x =~= "{ value: "@ + v);
    assert(out_value_text(b) + y =~= "{ value: "@ + w);
    lemma_cancel("{ value: "@, v, w);
    lemma_values(a.0, " }"@ + x, b.0, " }"@ + y);
    lemma_cancel(" }"@, x, y);
}

proof fn lemma_out_handles(
    a: Out<ResourceHandle>,
    x: Seq<char>,
    b: Out<ResourceHandle>,
    y: Seq<char>,
)
    requires
        out_handle_text(a) + x == out_handle_text(b) + y,
    ensures
        a == b,
        x == y,
{
    reveal_strlit(" }");
    let v = handle_text(a.0) + (" }"@ + x);
    let w = handle_text(b.0) + (" }"@ + y);
    assert(out_handle_text(a) + x =~= "{ value: "@ + v);
    assert(out_handle_text(b) + y =~= "{ value: "@ + w);
    lemma_cancel("{ value: "@, v, w);
    lemma_decimals(a.0.0 as nat, " }"@ + x, b.0.0 as nat, " }"@ + y);
    lemma_cancel(" }"@, x, y);
}

proof fn lemma_methods(a: MethodHash, x: Seq<char>, b: MethodHash, y: Seq<char>)
    requires
        method_text(a) + x == method_text(b) + y,
    ensures
        a == b,
        x == y,
{
    let q = "\""@;
    assert(method_text(a) + x =~= q + (a.hex_text() + (q + x)));
    assert(method_text(b) + y =~= q + (b.hex_text() + (q + y)));
    lemma_cancel(q, a.hex_text() + (q + x), b.hex_text() + (q + y));
    law_limbs_are_read_back(a, 0);
    law_limbs_are_read_back(b, 0);
    lemma_split(a.hex_text(), q + x, b.hex_text(), q + y);
    law_digits_tell_methods_apart(a, b);
    lemma_cancel(q, x, y);
}

/// The characters of the name of an action that tell it from the others.
spec fn mark(name: Seq<char>) -> (char, char, char) {
    (name[0], name[2], name[6])
}

/// Name of the action of a step, up to its arguments.
spec fn action(step: Step) -> Seq<char> {
    match step {
        Step::SetStorage { .. } => "set_storage("@,
        Step::PreloadMethod { .. } => "preload_method("@,
        Step::GetStorage { .. } => "get_storage("@,
        Step::SkipConsumed => "skip_consumed"@,
        Step::ReadAbi { .. } => "read_abi("@,
        Step::FinishTransaction => "finish_transaction"@,
        Step::NewUtxo { .. } => "new_utxo("@,
        Step::EnterConstructor { .. } => "enter_constructor("@,
        Step::YieldBegin => "yield_begin"@,
        Step::RegisterMethod { .. } => "register_method("@,
        Step::Return { .. } => "return("@,
        Step::CallMethod { .. } => "call_method("@,
        Step::EnterMethod { .. } => "enter_method("@,
    }
}

/// An argument before others.
spec fn before_next(p: Seq<char>, x: Seq<char>) -> Seq<char> {
    p + (", "@ + x)
}

/// The last argument.
spec fn before_end(p: Seq<char>, x: Seq<char>) -> Seq<char> {
    p + (")"@ + x)
}

/// What is behind the name of the action of a step.
spec fn arguments_text(step: Step, x: Seq<char>) -> Seq<char> {
    match step {
        Step::SetStorage { storage, resource } => before_next(
            value_text(storage),
            before_end(out_handle_text(resource), x),
        ),
        Step::PreloadMethod { method } => before_end(method_text(method), x),
        Step::GetStorage { storage } => before_end(out_value_text(storage), x),
        Step::SkipConsumed => x,
        Step::ReadAbi { method } => before_end(method_text(method), x),
        Step::FinishTransaction => x,
        Step::NewUtxo { arguments, resource } => before_next(
            value_text(arguments),
            before_end(out_handle_text(resource), x),
        ),
        Step::EnterConstructor { arguments } => before_end(value_text(arguments), x),
        Step::YieldBegin => x,
        Step::RegisterMethod { method } => before_end(method_text(method), x),
        Step::Return { result } => before_end(out_value_text(result), x),
        Step::CallMethod { resource, method, arguments, result } => before_next(
            handle_text(resource),
            before_next(
                method_text(method),
                before_next(value_text(arguments), before_end(out_value_text(result), x)),
            ),
        ),
        Step::EnterMethod { method, arguments } => before_next(
            method_text(method),
            before_end(value_text(arguments), x),
        ),
    }
}

proof fn lemma_call1(name: Seq<char>, p: Seq<char>, x: Seq<char>)
    ensures
        name + p + ")"@ + x == name + (p + (")"@ + x)),
{
    assert(name + p + ")"@ + x =~= name + (p + (")"@ + x)));
}

proof fn lemma_call2(name: Seq<char>, p: Seq<char>, q: Seq<char>, x: Seq<char>)
    ensures
        name + p + ", "@ + q + ")"@ + x == name + (p + (", "@ + (q + (")"@ + x)))),
{
    assert(name + p + ", "@ + q + ")"@ + x =~= name + (p + (", "@ + (q + (")"@ + x)))));
}

proof fn lemma_call4(
    name: Seq<char>,
    p: Seq<char>,
    q: Seq<char>,
    r: Seq<char>,
    s: Seq<char>,
    x: Seq<char>,
)
    ensures
        name + p + ", "@ + q + ", "@ + r + ", "@ + s + ")"@ + x == name + (p + (", "@ + (q + (", "@
            + (r + (", "@ + (s + (")"@ + x)))))))),
{
    lemma_call2(name + p + ", "@ + q + ", "@, r, s, x);
    let rest = r + (", "@ + (s + (")"@ + x)));
    assert(name + p + ", "@ + q + ", "@ + rest =~= name + (p + (", "@ + (q + (", "@ + rest)))));
}

/// The text of a step is the name of its action and what is behind it.
proof fn lemma_arguments(step: Step, x: Seq<char>)
    ensures
        step_text(step) + x == action(step) + arguments_text(step, x),
{
    match step {
        Step::SetStorage { storage, resource } => lemma_call2(
            "set_storage("@,
            value_text(storage),
            out_handle_text(resource),
            x,
        ),
        Step::PreloadMethod { method } => lemma_call1("preload_method("@, method_text(method), x),
        Step::GetStorage { storage } => lemma_call1("get_storage("@, out_value_text(storage), x),
        Step::ReadAbi { method } => lemma_call1("read_abi("@, method_text(method), x),
        Step::NewUtxo { arguments, resource } => lemma_call2(
            "new_utxo("@,
            value_text(arguments),
            out_handle_text(resource),
            x,
        ),
        Step::EnterConstructor { arguments } => lemma_call1(
            "enter_constructor("@,
            value_text(arguments),
            x,
        ),
        Step::RegisterMethod { method } => lemma_call1("register_method("@, method_text(method), x),
        Step::Return { result } => lemma_call1("return("@, out_value_text(result), x),
        Step::CallMethod { resource, method, arguments, result } => lemma_call4(
            "call_method("@,
            handle_text(resource),
            method_text(method),
            value_text(arguments),
            out_value_text(result),
            x,
        ),
        Step::EnterMethod { method, arguments } => lemma_call2(
            "enter_method("@,
            method_text(method),
            value_text(arguments),
            x,
        ),
        _ => {},
    }
}

proof fn lemma_mark(step: Step)
    ensures
        action(step).len() > 6,
        mark(action(step)) == match step {
            Step::SetStorage { .. } => ('s', 't', 'o'),
            Step::PreloadMethod { .. } => ('p', 'e', 'd'),
            Step::GetStorage { .. } => ('g', 't', 'o'),
            Step::SkipConsumed => ('s', 'i', 'o'),
            Step::ReadAbi { .. } => ('r', 'a', 'b'),
            Step::FinishTransaction => ('f', 'n', '_'),
            Step::NewUtxo { .. } => ('n', 'w', 'x'),
            Step::EnterConstructor { .. } => ('e', 't', 'c'),
            Step::YieldBegin => ('y', 'e', 'b'),
            Step::RegisterMethod { .. } => ('r', 'g', 'e'),
            Step::Return { .. } => ('r', 't', '('),
            Step::CallMethod { .. } => ('c', 'l', 'e'),
            Step::EnterMethod { .. } => ('e', 't', 'm'),
        },
{
    match step {
        Step::SetStorage { .. } => reveal_strlit("set_storage("),
        Step::PreloadMethod { .. } => reveal_strlit("preload_method("),
        Step::GetStorage { .. } => reveal_strlit("get_storage("),
        Step::SkipConsumed => reveal_strlit("skip_consumed"),
        Step::ReadAbi { .. } => reveal_strlit("read_abi("),
        Step::FinishTransaction => reveal_strlit("finish_transaction"),
        Step::NewUtxo { .. } => reveal_strlit("new_utxo("),
        Step::EnterConstructor { .. } => reveal_strlit("enter_constructor("),
        Step::YieldBegin => reveal_strlit("yield_begin"),
        Step::RegisterMethod { .. } => reveal_strlit("register_method("),
        Step::Return { .. } => reveal_strlit("return("),
        Step::CallMethod { .. } => reveal_strlit("call_method("),
        Step::EnterMethod { .. } => reveal_strlit("enter_method("),
    }
}

/// Steps whose texts start alike are of the same kind.
proof fn lemma_actions(a: Step, x: Seq<char>, b: Step, y: Seq<char>)
    requires
        action(a) + x == action(b) + y,
    ensures
        action(a) == action(b),
        mark(action(a)) == mark(action(b)),
        x == y,
{
    lemma_mark(a);
    lemma_mark(b);
    assert((action(a) + x)[0] == action(a)[0] && (action(b) + y)[0] == action(b)[0]);
    assert((action(a) + x)[2] == action(a)[2] && (action(b) + y)[2] == action(b)[2]);
    assert((action(a) + x)[6] == action(a)[6] && (action(b) + y)[6] == action(b)[6]);
    lemma_cancel(action(a), x, y);
}

proof fn lemma_value_and_handle(
    v: StarstreamValue,
    p: Out<ResourceHandle>,
    x: Seq<char>,
    w: StarstreamValue,
    q: Out<ResourceHandle>,
    y: Seq<char>,
)
    requires
        is_canonical(v),
        is_canonical(w),
        before_next(value_text(v), before_end(out_handle_text(p), x)) == before_next(
            value_text(w),
            before_end(out_handle_text(q), y),
        ),
    ensures
        v == w,
        p == q,
        x == y,
{
    let s = before_end(out_handle_text(p), x);
    let t = before_end(out_handle_text(q), y);
    lemma_values(v, ", "@ + s, w, ", "@ + t);
    lemma_cancel(", "@, s, t);
    lemma_out_handles(p, ")"@ + x, q, ")"@ + y);
    lemma_cancel(")"@, x, y);
}

proof fn lemma_one_value(v: StarstreamValue, x: Seq<char>, w: StarstreamValue, y: Seq<char>)
    requires
        is_canonical(v),
        is_canonical(w),
        before_end(value_text(v), x) == before_end(value_text(w), y),
    ensures
        v == w,
        x == y,
{
    lemma_values(v, ")"@ + x, w, ")"@ + y);
    lemma_cancel(")"@, x, y);
}

proof fn lemma_one_out_value(
    v: Out<StarstreamValue>,
    x: Seq<char>,
    w: Out<StarstreamValue>,
    y: Seq<char>,
)
    requires
        is_canonical(v.0),
        is_canonical(w.0),
        before_end(out_value_text(v), x) == before_end(out_value_text(w), y),
    ensures
        v == w,
        x == y,
{
    lemma_out_values(v, ")"@ + x, w, ")"@ + y);
    lemma_cancel(")"@, x, y);
}

proof fn lemma_one_method(a: MethodHash, x: Seq<char>, b: MethodHash, y: Seq<char>)
    requires
        before_end(method_text(a), x) == before_end(method_text(b), y),
    ensures
        a == b,
        x == y,
{
    lemma_methods(a, ")"@ + x, b, ")"@ + y);
    lemma_cancel(")"@, x, y);
}

/// The arguments of a call are found again.
proof fn lemma_calls(a: Step, x: Seq<char>, b: Step, y: Seq<char>)
    requires
        a is CallMethod,
        b is CallMethod,
        names_canonical_values(a),
        names_canonical_values(b),
        arguments_text(a, x) == arguments_text(b, y),
    ensures
        a == b,
        x == y,
{
    let (m, v, r) = (a->CallMethod_method, a->CallMethod_arguments, a->CallMethod_result);
    let (n, w, s) = (b->CallMethod_method, b->CallMethod_arguments, b->CallMethod_result);
    let v2 = before_end(out_value_text(r), x);
    let w2 = before_end(out_value_text(s), y);
    let v1 = before_next(value_text(v), v2);
    let w1 = before_next(value_text(w), w2);
    let v0 = before_next(method_text(m), v1);
    let w0 = before_next(method_text(n), w1);
    assert(ends_number(", "@ + v0) && ends_number(", "@ + w0)) by {
        reveal_strlit(", ");
    }
    lemma_decimals(
        a->CallMethod_resource.0 as nat,
        ", "@ + v0,
        b->CallMethod_resource.0 as nat,
        ", "@ + w0,
    );
    lemma_cancel(", "@, v0, w0);
    lemma_methods(m, ", "@ + v1, n, ", "@ + w1);
    lemma_cancel(", "@, v1, w1);
    lemma_values(v, ", "@ + v2, w, ", "@ + w2);
    lemma_cancel(", "@, v2, w2);
    lemma_one_out_value(r, x, s, y);
}

proof fn lemma_method_and_value(
    m: MethodHash,
    v: StarstreamValue,
    x: Seq<char>,
    n: MethodHash,
    w: StarstreamValue,
    y: Seq<char>,
)
    requires
        is_canonical(v),
        is_canonical(w),
        before_next(method_text(m), before_end(value_text(v), x)) == before_next(
            method_text(n),
            before_end(value_text(w), y),
        ),
    ensures
        m == n,
        v == w,
        x == y,
{
    let s = before_end(value_text(v), x);
    let t = before_end(value_text(w), y);
    lemma_methods(m, ", "@ + s, n, ", "@ + t);
    lemma_cancel(", "@, s, t);
    lemma_one_value(v, x, w, y);
}

/// A step is found again at the start of a text.
proof fn lemma_steps(a: Step, x: Seq<char>, b: Step, y: Seq<char>)
    requires
        names_canonical_values(a),
        names_canonical_values(b),
        step_text(a) + x == step_text(b) + y,
    ensures
        a == b,
        x == y,
{
    lemma_arguments(a, x);
    lemma_arguments(b, y);
    lemma_mark(a);
    lemma_mark(b);
    lemma_actions(a, arguments_text(a, x), b, arguments_text(b, y));
    match (a, b) {
        (
            Step::SetStorage { storage: v, resource: p },
            Step::SetStorage { storage: w, resource: q },
        ) => lemma_value_and_handle(v, p, x, w, q, y),
        (Step::PreloadMethod { method: m }, Step::PreloadMethod { method: n }) => lemma_one_method(
            m,
            x,
            n,
            y,
        ),
        (Step::GetStorage { storage: v }, Step::GetStorage { storage: w }) => lemma_one_out_value(
            v,
            x,
            w,
            y,
        ),
        (Step::ReadAbi { method: m }, Step::ReadAbi { method: n }) => lemma_one_method(m, x, n, y),
        (
            Step::NewUtxo { arguments: v, resource: p },
            Step::NewUtxo { arguments: w, resource: q },
        ) => lemma_value_and_handle(v, p, x, w, q, y),
        (
            Step::EnterConstructor { arguments: v },
            Step::EnterConstructor { arguments: w },
        ) => lemma_one_value(v, x, w, y),
        (
            Step::RegisterMethod { method: m },
            Step::RegisterMethod { method: n },
        ) => lemma_one_method(m, x, n, y),
        (Step::Return { result: v }, Step::Return { result: w }) => lemma_one_out_value(v, x, w, y),
        (Step::CallMethod { .. }, Step::CallMethod { .. }) => lemma_calls(a, x, b, y),
        (
            Step::EnterMethod { method: m, arguments: v },
            Step::EnterMethod { method: n, arguments: w },
        ) => lemma_method_and_value(m, v, x, n, w, y),
        _ => {},
    }
}

/// What separates an item from the next tells whether there is a next one.
proof fn lemma_separated(m: nat, s: Seq<char>, n: nat, t: Seq<char>)
    requires
        separator(1, m) + s == separator(1, n) + t,
        s.len() > 0,
        t.len() > 0,
        m == 0 ==> s[0] == ')',
        n == 0 ==> t[0] == ')',
    ensures
        m == 0 <==> n == 0,
        s == t,
{
    let p = separator(1, m) + s;
    let q = separator(1, n) + t;
    assert(m == 0 ==> p =~= s);
    assert(n == 0 ==> q =~= t);
    assert(m > 0 ==> p[0] == ',');
    assert(n > 0 ==> q[0] == ',');
    lemma_cancel(separator(1, m), s, t);
}

/// A list of methods is found again before the bracket behind it.
proof fn lemma_method_lists(a: Seq<MethodHash>, x: Seq<char>, b: Seq<MethodHash>, y: Seq<char>)
    requires
        methods_text(a, a.len() as int) + (") }"@ + x) == methods_text(b, b.len() as int) + (") }"@
            + y),
    ensures
        a == b,
        x == y,
    decreases a.len(),
{
    let u = ") }"@ + x;
    let v = ") }"@ + y;
    assert(u.len() > 0 && v.len() > 0 && u[0] == ')' && v[0] == ')') by {
        reveal_strlit(") }");
    }
    lemma_first_method(a, u);
    lemma_first_method(b, v);
    if a.len() > 0 && b.len() > 0 {
        let c = a.skip(1);
        let d = b.skip(1);
        let p = separator(1, c.len()) + (methods_text(c, c.len() as int) + u);
        let q = separator(1, d.len()) + (methods_text(d, d.len() as int) + v);
        lemma_methods(a[0], p, b[0], q);
        lemma_first_method(c, u);
        lemma_first_method(d, v);
        lemma_separated(
            c.len(),
            methods_text(c, c.len() as int) + u,
            d.len(),
            methods_text(d, d.len() as int) + v,
        );
        lemma_method_lists(c, x, d, y);
        assert(a =~= seq![a[0]] + c);
        assert(b =~= seq![b[0]] + d);
    } else {
        assert(a =~= b);
        lemma_cancel(") }"@, x, y);
    }
}

/// A list of methods starts with its first one.
proof fn lemma_first_method(a: Seq<MethodHash>, u: Seq<char>)
    ensures
        a.len() > 0 ==> methods_text(a, a.len() as int) + u == method_text(a[0]) + (separator(
            1,
            a.skip(1).len(),
        ) + (methods_text(a.skip(1), a.skip(1).len() as int) + u)) && (methods_text(
            a,
            a.len() as int,
        ) + u)[0] == '"',
        a.len() == 0 ==> methods_text(a, a.len() as int) + u == u,
{
    if a.len() > 0 {
        let c = a.skip(1);
        law_method_lists_are_joined(seq![a[0]], c);
        law_method_lists_are_joined(c, seq![a[0]]);
        assert(seq![a[0]] + c =~= a);
        let whole = methods_text(a, a.len() as int) + u;
        assert(whole =~= method_text(a[0]) + (separator(1, c.len()) + (methods_text(
            c,
            c.len() as int,
        ) + u)));
        assert(whole[0] == '"') by {
            reveal_strlit("\"");
        }
    } else {
        assert(methods_text(a, 0) + u =~= u);
    }
}

/// Whether two inputs are the same.
pub open spec fn same_input(a: InputUtxo, b: InputUtxo) -> bool {
    a.storage == b.storage && a.methods@ == b.methods@
}

/// Whether two outputs are the same.
pub open spec fn same_output(a: OutputUtxo, b: OutputUtxo) -> bool {
    a.utxo == b.utxo && a.storage == b.storage && a.methods@ == b.methods@
}

/// Whether two lists hold the same inputs, in the same order.
pub open spec fn same_inputs(a: Seq<InputUtxo>, b: Seq<InputUtxo>) -> bool {
    &&& a.len() == b.len()
    &&& forall|i: int| 0 <= i < a.len() ==> same_input(#[trigger] a[i], b[i])
}

/// Whether two lists hold the same outputs, in the same order.
pub open spec fn same_outputs(a: Seq<OutputUtxo>, b: Seq<OutputUtxo>) -> bool {
    &&& a.len() == b.len()
    &&& forall|i: int| 0 <= i < a.len() ==> same_output(#[trigger] a[i], b[i])
}

proof fn lemma_inputs(a: InputUtxo, x: Seq<char>, b: InputUtxo, y: Seq<char>)
    requires
        is_canonical(a.storage),
        is_canonical(b.storage),
        input_text(a) + x == input_text(b) + y,
    ensures
        same_input(a, b),
        x == y,
{
    let m = methods_text(a.methods@, a.methods@.len() as int) + (") }"@ + x);
    let n = methods_text(b.methods@, b.methods@.len() as int) + (") }"@ + y);
    let p = value_text(a.storage) + (", methods: List("@ + m);
    let q = value_text(b.storage) + (", methods: List("@ + n);
    assert(input_text(a) + x =~= "{ storage: "@ + p);
    assert(input_text(b) + y =~= "{ storage: "@ + q);
    lemma_cancel("{ storage: "@, p, q);
    lemma_values(a.storage, ", methods: List("@ + m, b.storage, ", methods: List("@ + n);
    lemma_cancel(", methods: List("@, m, n);
    lemma_method_lists(a.methods@, x, b.methods@, y);
}

proof fn lemma_output_parts(a: OutputUtxo, x: Seq<char>)
    ensures
        output_text(a) + x == "{ utxo: "@ + (decimal(a.utxo as nat) + (", storage: "@ + (value_text(
            a.storage,
        ) + (", methods: List("@ + (methods_text(a.methods@, a.methods@.len() as int) + (") }"@
            + x)))))),
{
    let m = methods_text(a.methods@, a.methods@.len() as int);
    let v = value_text(a.storage);
    let head = "{ utxo: "@ + decimal(a.utxo as nat) + ", storage: "@ + v;
    let rest = ", methods: List("@ + (m + (") }"@ + x));
    assert(output_text(a) + x =~= head + rest);
    assert(head + rest =~= "{ utxo: "@ + (decimal(a.utxo as nat) + (", storage: "@ + (v + rest))));
}

proof fn lemma_outputs(a: OutputUtxo, x: Seq<char>, b: OutputUtxo, y: Seq<char>)
    requires
        is_canonical(a.storage),
        is_canonical(b.storage),
        output_text(a) + x == output_text(b) + y,
    ensures
        same_output(a, b),
        x == y,
{
    let m = methods_text(a.methods@, a.methods@.len() as int) + (") }"@ + x);
    let n = methods_text(b.methods@, b.methods@.len() as int) + (") }"@ + y);
    let p = value_text(a.storage) + (", methods: List("@ + m);
    let q = value_text(b.storage) + (", methods: List("@ + n);
    let r = ", storage: "@ + p;
    let s = ", storage: "@ + q;
    lemma_output_parts(a, x);
    lemma_output_parts(b, y);
    lemma_cancel("{ utxo: "@, decimal(a.utxo as nat) + r, decimal(b.utxo as nat) + s);
    assert(ends_number(r) && ends_number(s)) by {
        reveal_strlit(", storage: ");
    }
    lemma_decimals(a.utxo as nat, r, b.utxo as nat, s);
    lemma_cancel(", storage: "@, p, q);
    lemma_values(a.storage, ", methods: List("@ + m, b.storage, ", methods: List("@ + n);
    lemma_cancel(", methods: List("@, m, n);
    lemma_method_lists(a.methods@, x, b.methods@, y);
}

proof fn lemma_same_inputs(a: Seq<InputUtxo>, b: Seq<InputUtxo>)
    requires
        a.len() > 0,
        b.len() > 0,
        same_input(a[0], b[0]),
        same_inputs(a.skip(1), b.skip(1)),
    ensures
        same_inputs(a, b),
{
    let c = a.skip(1);
    let d = b.skip(1);
    assert(a.len() == c.len() + 1);
    assert forall|i: int| 0 <= i < a.len() implies same_input(#[trigger] a[i], b[i]) by {
        if i > 0 {
            assert(a[i] == c[i - 1] && b[i] == d[i - 1]);
            assert(same_input(c[i - 1], d[i - 1]));
        }
    }
}

/// The inputs of a list are found again before the bracket behind it.
proof fn lemma_input_lists(a: Seq<InputUtxo>, x: Seq<char>, b: Seq<InputUtxo>, y: Seq<char>)
    requires
        forall|i: int| 0 <= i < a.len() ==> is_canonical(#[trigger] a[i].storage),
        forall|i: int| 0 <= i < b.len() ==> is_canonical(#[trigger] b[i].storage),
        x.len() > 0 && x[0] == ')',
        y.len() > 0 && y[0] == ')',
        inputs_text(a, a.len() as int) + x == inputs_text(b, b.len() as int) + y,
    ensures
        same_inputs(a, b),
        x == y,
    decreases a.len(),
{
    lemma_first_input(a, x);
    lemma_first_input(b, y);
    if a.len() > 0 && b.len() > 0 {
        let c = a.skip(1);
        let d = b.skip(1);
        let p = separator(1, c.len()) + (inputs_text(c, c.len() as int) + x);
        let q = separator(1, d.len()) + (inputs_text(d, d.len() as int) + y);
        assert(is_canonical(a[0].storage) && is_canonical(b[0].storage));
        lemma_inputs(a[0], p, b[0], q);
        lemma_first_input(c, x);
        lemma_first_input(d, y);
        lemma_separated(
            c.len(),
            inputs_text(c, c.len() as int) + x,
            d.len(),
            inputs_text(d, d.len() as int) + y,
        );
        assert forall|i: int| 0 <= i < c.len() implies is_canonical(#[trigger] c[i].storage) by {
            assert(c[i].storage == a[i + 1].storage);
        }
        assert forall|i: int| 0 <= i < d.len() implies is_canonical(#[trigger] d[i].storage) by {
            assert(d[i].storage == b[i + 1].storage);
        }
        lemma_input_lists(c, x, d, y);
        lemma_same_inputs(a, b);
    }
}

/// A list of inputs starts with its first one.
proof fn lemma_first_input(a: Seq<InputUtxo>, u: Seq<char>)
    ensures
        a.len() > 0 ==> inputs_text(a, a.len() as int) + u == input_text(a[0]) + (separator(
            1,
            a.skip(1).len(),
        ) + (inputs_text(a.skip(1), a.skip(1).len() as int) + u)) && (inputs_text(
            a,
            a.len() as int,
        ) + u)[0] == '{',
        a.len() == 0 ==> inputs_text(a, a.len() as int) + u == u,
{
    if a.len() > 0 {
        let c = a.skip(1);
        law_input_lists_are_joined(seq![a[0]], c);
        law_input_lists_are_joined(c, seq![a[0]]);
        assert(seq![a[0]] + c =~= a);
        let whole = inputs_text(a, a.len() as int) + u;
        assert(whole =~= input_text(a[0]) + (separator(1, c.len()) + (inputs_text(
            c,
            c.len() as int,
        ) + u)));
        assert(whole[0] == '{') by {
            reveal_strlit("{ storage: ");
        }
    } else {
        assert(inputs_text(a, 0) + u =~= u);
    }
}

proof fn lemma_same_outputs(a: Seq<OutputUtxo>, b: Seq<OutputUtxo>)
    requires
        a.len() > 0,
        b.len() > 0,
        same_output(a[0], b[0]),
        same_outputs(a.skip(1), b.skip(1)),
    ensures
        same_outputs(a, b),
{
    let c = a.skip(1);
    let d = b.skip(1);
    assert(a.len() == c.len() + 1);
    assert forall|i: int| 0 <= i < a.len() implies same_output(#[trigger] a[i], b[i]) by {
        if i > 0 {
            assert(a[i] == c[i - 1] && b[i] == d[i - 1]);
            assert(same_output(c[i - 1], d[i - 1]));
        }
    }
}

/// The outputs of a list are found again before the bracket behind it.
proof fn lemma_output_lists(a: Seq<OutputUtxo>, x: Seq<char>, b: Seq<OutputUtxo>, y: Seq<char>)
    requires
        forall|i: int| 0 <= i < a.len() ==> is_canonical(#[trigger] a[i].storage),
        forall|i: int| 0 <= i < b.len() ==> is_canonical(#[trigger] b[i].storage),
        x.len() > 0 && x[0] == ')',
        y.len() > 0 && y[0] == ')',
        outputs_text(a, a.len() as int) + x == outputs_text(b, b.len() as int) + y,
    ensures
        same_outputs(a, b),
        x == y,
    decreases a.len(),
{
    lemma_first_output(a, x);
    lemma_first_output(b, y);
    if a.len() > 0 && b.len() > 0 {
        let c = a.skip(1);
        let d = b.skip(1);
        let p = separator(1, c.len()) + (outputs_text(c, c.len() as int) + x);
        let q = separator(1, d.len()) + (outputs_text(d, d.len() as int) + y);
        assert(is_canonical(a[0].storage) && is_canonical(b[0].storage));
        lemma_outputs(a[0], p, b[0], q);
        lemma_first_output(c, x);
        lemma_first_output(d, y);
        lemma_separated(
            c.len(),
            outputs_text(c, c.len() as int) + x,
            d.len(),
            outputs_text(d, d.len() as int) + y,
        );
        assert forall|i: int| 0 <= i < c.len() implies is_canonical(#[trigger] c[i].storage) by {
            assert(c[i].storage == a[i + 1].storage);
        }
        assert forall|i: int| 0 <= i < d.len() implies is_canonical(#[trigger] d[i].storage) by {
            assert(d[i].storage == b[i + 1].storage);
        }
        lemma_output_lists(c, x, d, y);
        lemma_same_outputs(a, b);
    }
}

/// A list of outputs starts with its first one.
proof fn lemma_first_output(a: Seq<OutputUtxo>, u: Seq<char>)
    ensures
        a.len() > 0 ==> outputs_text(a, a.len() as int) + u == output_text(a[0]) + (separator(
            1,
            a.skip(1).len(),
        ) + (outputs_text(a.skip(1), a.skip(1).len() as int) + u)) && (outputs_text(
            a,
            a.len() as int,
        ) + u)[0] == '{',
        a.len() == 0 ==> outputs_text(a, a.len() as int) + u == u,
{
    if a.len() > 0 {
        let c = a.skip(1);
        law_output_lists_are_joined(seq![a[0]], c);
        law_output_lists_are_joined(c, seq![a[0]]);
        assert(seq![a[0]] + c =~= a);
        let whole = outputs_text(a, a.len() as int) + u;
        assert(whole =~= output_text(a[0]) + (separator(1, c.len()) + (outputs_text(
            c,
            c.len() as int,
        ) + u)));
        assert(whole[0] == '{') by {
            reveal_strlit("{ utxo: ");
        }
    } else {
        assert(outputs_text(a, 0) + u =~= u);
    }
}

/// The characters of the names at the end of the steps.
proof fn lemma_end_marks()
    ensures
        mark("transaction_complete"@) == ('t', 'a', 'c'),
        mark("execution_complete"@) == ('e', 'e', 'i'),
        "transaction_complete"@.len() > 6,
        "execution_complete"@.len() > 6,
{
    reveal_strlit("transaction_complete");
    reveal_strlit("execution_complete");
}

/// What the chain of steps ends with.
spec fn end_name(statement: Option<TransactionStatement>) -> Seq<char> {
    if statement is Some {
        "transaction_complete"@
    } else {
        "execution_complete"@
    }
}

/// What is behind the name at the end of the steps.
spec fn end_rest() -> Seq<char> {
    ")\n}\n"@
}

proof fn lemma_tail_parts(statement: Option<TransactionStatement>)
    ensures
        tail_text(statement) == "    .then("@ + (end_name(statement) + end_rest()),
{
    reveal_strlit("    .then(");
    reveal_strlit(")\n}\n");
    reveal_strlit("transaction_complete");
    reveal_strlit("execution_complete");
    reveal_strlit("    .then(transaction_complete)\n}\n");
    reveal_strlit("    .then(execution_complete)\n}\n");
    assert(tail_text(statement) =~= "    .then("@ + (end_name(statement) + end_rest()));
}

/// The lines of the steps of an execution start with that of its first step.
proof fn lemma_first_step(a: Seq<Step>, x: Seq<char>)
    ensures
        a.len() > 0 ==> steps_text(a, a.len() as int) + x == "    .then("@ + (step_text(a[0]) + (
        ")\n"@ + (steps_text(a.skip(1), a.skip(1).len() as int) + x))),
        a.len() == 0 ==> steps_text(a, a.len() as int) + x == x,
{
    if a.len() > 0 {
        let c = a.skip(1);
        law_step_lines_are_joined(seq![a[0]], c);
        law_step_lines_are_joined(c, seq![a[0]]);
        assert(seq![a[0]] + c =~= a);
        assert(steps_text(a, a.len() as int) + x =~= "    .then("@ + (step_text(a[0]) + (")\n"@ + (
        steps_text(c, c.len() as int) + x))));
    } else {
        assert(steps_text(a, 0) + x =~= x);
    }
}

/// A step does not end the chain of steps.
proof fn lemma_no_end(step: Step, x: Seq<char>, statement: Option<TransactionStatement>)
    ensures
        step_text(step) + x != end_name(statement) + end_rest(),
{
    lemma_arguments(step, x);
    lemma_mark(step);
    lemma_end_marks();
    let p = action(step) + arguments_text(step, x);
    let q = end_name(statement) + end_rest();
    assert(mark(p) == mark(action(step)));
    assert(mark(q) == mark(end_name(statement)));
}

/// Steps are found again before the end of the chain of steps.
proof fn lemma_chains(
    a: Seq<Step>,
    s: Option<TransactionStatement>,
    b: Seq<Step>,
    t: Option<TransactionStatement>,
)
    requires
        forall|i: int| 0 <= i < a.len() ==> names_canonical_values(#[trigger] a[i]),
        forall|i: int| 0 <= i < b.len() ==> names_canonical_values(#[trigger] b[i]),
        steps_text(a, a.len() as int) + tail_text(s) == steps_text(b, b.len() as int) + tail_text(
            t,
        ),
    ensures
        a == b,
        tail_text(s) == tail_text(t),
    decreases a.len(),
{
    let then_text = "    .then("@;
    let x = tail_text(s);
    let y = tail_text(t);
    lemma_tail_parts(s);
    lemma_tail_parts(t);
    lemma_first_step(a, x);
    lemma_first_step(b, y);
    if a.len() > 0 && b.len() > 0 {
        let c = a.skip(1);
        let d = b.skip(1);
        let p = steps_text(c, c.len() as int) + x;
        let q = steps_text(d, d.len() as int) + y;
        lemma_cancel(
            then_text,
            step_text(a[0]) + (")\n"@ + p),
            step_text(b[0]) + (")\n"@ + q),
        );
        lemma_steps(a[0], ")\n"@ + p, b[0], ")\n"@ + q);
        lemma_cancel(")\n"@, p, q);
        lemma_chains(c, s, d, t);
        assert(a =~= seq![a[0]] + c);
        assert(b =~= seq![b[0]] + d);
    } else if a.len() > 0 {
        let rest = ")\n"@ + (steps_text(a.skip(1), a.skip(1).len() as int) + x);
        lemma_no_end(a[0], rest, t);
        lemma_cancel(then_text, step_text(a[0]) + rest, end_name(t) + end_rest());
    } else if b.len() > 0 {
        let rest = ")\n"@ + (steps_text(b.skip(1), b.skip(1).len() as int) + y);
        lemma_no_end(b[0], rest, s);
        lemma_cancel(then_text, step_text(b[0]) + rest, end_name(s) + end_rest());
    } else {
        assert(a =~= b);
    }
}

/// Whether two statements list the same inputs and outputs, in the same order.
pub open spec fn same_statement(
    s: Option<TransactionStatement>,
    t: Option<TransactionStatement>,
) -> bool {
    match (s, t) {
        (Some(s), Some(t)) => same_inputs(s.inputs@, t.inputs@) && same_outputs(
            s.outputs@,
            t.outputs@,
        ),
        (None, None) => true,
        _ => false,
    }
}

/// Whether the values that a statement lists are made of field elements.
pub open spec fn lists_canonical_values(statement: Option<TransactionStatement>) -> bool {
    statement matches Some(st) ==> {
        &&& forall|i: int| 0 <= i < st.inputs@.len() ==> is_canonical(#[trigger] st.inputs@[i].storage)
        &&& forall|i: int|
            0 <= i < st.outputs@.len() ==> is_canonical(#[trigger] st.outputs@[i].storage)
    }
}

proof fn lemma_initial_parts(st: TransactionStatement, x: Seq<char>)
    ensures
        initial_text(Some(st)) + x == "new_transaction(List("@ + (inputs_text(
            st.inputs@,
            st.inputs@.len() as int,
        ) + ("), List("@ + (outputs_text(st.outputs@, st.outputs@.len() as int) + ("))"@ + x)))),
{
    let i = inputs_text(st.inputs@, st.inputs@.len() as int);
    let o = outputs_text(st.outputs@, st.outputs@.len() as int);
    assert("new_transaction(List("@ + i + "), List("@ + o + "))"@ + x =~= "new_transaction(List("@
        + (i + ("), List("@ + (o + ("))"@ + x)))));
}

proof fn lemma_both_stated(
    s: TransactionStatement,
    x: Seq<char>,
    t: TransactionStatement,
    y: Seq<char>,
)
    requires
        lists_canonical_values(Some(s)),
        lists_canonical_values(Some(t)),
        initial_text(Some(s)) + x == initial_text(Some(t)) + y,
    ensures
        same_inputs(s.inputs@, t.inputs@),
        same_outputs(s.outputs@, t.outputs@),
        x == y,
{
    let u = "))"@ + x;
    let v = "))"@ + y;
    let p = outputs_text(s.outputs@, s.outputs@.len() as int) + u;
    let q = outputs_text(t.outputs@, t.outputs@.len() as int) + v;
    let m = "), List("@ + p;
    let n = "), List("@ + q;
    let i = inputs_text(s.inputs@, s.inputs@.len() as int);
    let j = inputs_text(t.inputs@, t.inputs@.len() as int);
    lemma_initial_parts(s, x);
    lemma_initial_parts(t, y);
    lemma_cancel("new_transaction(List("@, i + m, j + n);
    assert(m.len() > 0 && n.len() > 0 && m[0] == ')' && n[0] == ')') by {
        reveal_strlit("), List(");
    }
    lemma_input_lists(s.inputs@, m, t.inputs@, n);
    lemma_cancel("), List("@, p, q);
    assert(u.len() > 0 && v.len() > 0 && u[0] == ')' && v[0] == ')') by {
        reveal_strlit("))");
    }
    lemma_output_lists(s.outputs@, u, t.outputs@, v);
    lemma_cancel("))"@, x, y);
}

/// A statement is found again in the state that a replay starts from.
proof fn lemma_statements(
    s: Option<TransactionStatement>,
    x: Seq<char>,
    t: Option<TransactionStatement>,
    y: Seq<char>,
)
    requires
        lists_canonical_values(s),
        lists_canonical_values(t),
        initial_text(s) + x == initial_text(t) + y,
    ensures
        same_statement(s, t),
        x == y,
{
    assert("new_tx"@.len() == 6 && "new_tx"@[5] == 'x') by {
        reveal_strlit("new_tx");
    }
    assert("new_transaction(List("@.len() == 21 && "new_transaction(List("@[5] == 'r') by {
        reveal_strlit("new_transaction(List(");
    }
    match (s, t) {
        (Some(st), Some(su)) => lemma_both_stated(st, x, su, y),
        (None, None) => {
            lemma_cancel("new_tx"@, x, y);
        },
        (Some(_), None) => {
            assert((initial_text(s) + x)[5] == 'r');
            assert((initial_text(t) + y)[5] == 'x');
        },
        (None, Some(_)) => {
            assert((initial_text(s) + x)[5] == 'x');
            assert((initial_text(t) + y)[5] == 'r');
        },
    }
}

proof fn lemma_module_parts(
    head: Seq<char>,
    initial: Seq<char>,
    next: Seq<char>,
    steps: Seq<char>,
    tail: Seq<char>,
)
    ensures
        head + initial + next + steps + tail == head + (initial + (next + (steps + tail))),
{
    assert(head + initial + next + steps + tail =~= head + (initial + (next + (steps + tail))));
}

/// A module tells what it replays: two modules of values of field elements have the same
/// text only where they replay the same steps in the same order, and start from the same
/// inputs and outputs, each with the same methods in the same order.
pub proof fn law_modules_tell_executions_apart(
    a: Seq<Step>,
    s: Option<TransactionStatement>,
    b: Seq<Step>,
    t: Option<TransactionStatement>,
)
    requires
        forall|i: int| 0 <= i < a.len() ==> names_canonical_values(#[trigger] a[i]),
        forall|i: int| 0 <= i < b.len() ==> names_canonical_values(#[trigger] b[i]),
        lists_canonical_values(s),
        lists_canonical_values(t),
        module_text(a, s) == module_text(b, t),
    ensures
        a == b,
        same_statement(s, t),
{
    let head = "module replay_trace {\n  import starstream.* from \"./starstream\"\n\n  action init = { state' = "@;
    let next = " }\n\n  run execution_satisfies_spec = init\n"@;
    let p = steps_text(a, a.len() as int) + tail_text(s);
    let q = steps_text(b, b.len() as int) + tail_text(t);
    lemma_module_parts(head, initial_text(s), next, steps_text(a, a.len() as int), tail_text(s));
    lemma_module_parts(head, initial_text(t), next, steps_text(b, b.len() as int), tail_text(t));
    lemma_cancel(head, initial_text(s) + (next + p), initial_text(t) + (next + q));
    lemma_statements(s, next + p, t, next + q);
    lemma_cancel(next, p, q);
    lemma_chains(a, s, b, t);
}

} // verus!
