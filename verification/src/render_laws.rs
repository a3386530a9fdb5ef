//! What a rendered module says: values, methods and lists are read back from their
//! texts, in their order.

use vstd::prelude::*;

use crate::events::lemma_same_limbs;
use crate::field::{residue, FIELD_MODULUS};
use crate::quint::{
    centered, handle_text, input_text, inputs_text, law_centered_words_restore, method_text,
    methods_text, out_handle_text, output_text, outputs_text, step_line, steps_text, value_text,
    FIELD_HALF,
};
use crate::text::{all_digits, signed_decimal};
use crate::text_laws::{
    in_base, law_decimals_are_read_back, law_hex_digits_are_read_back,
    law_signed_decimals_are_read_back, lemma_eight_digits, occurs, signed_number,
};
use crate::trace::{InputUtxo, MethodHash, Out, OutputUtxo, ResourceHandle, StarstreamValue, Step};

verus! {

/// Place of limb `i` among the digits of a method: of every pair the high limb stands
/// first.
pub open spec fn limb_place(i: int) -> int {
    if i % 2 == 1 {
        8 * (i - 1)
    } else {
        8 * (i + 1)
    }
}

/// The limbs of a method are read back from its 64 hexadecimal digits.
pub proof fn law_limbs_are_read_back(method: MethodHash, i: int)
    requires
        0 <= i < 8,
    ensures
        method.hex_text().len() == 64,
        in_base(method.hex_text().subrange(limb_place(i), limb_place(i) + 8), 16) == method.0[i],
{
    assert forall|j: int| 0 <= j < 8 implies crate::text::hex(
        #[trigger] method.0[j] as nat,
        8,
    ).len() == 8 && in_base(crate::text::hex(method.0[j] as nat, 8), 16) == method.0[j] by {
        lemma_eight_digits(method.0[j]);
        law_hex_digits_are_read_back(method.0[j] as nat, 8);
    }
    assert(method.0[0] == method.0[0] && method.0[1] == method.0[1] && method.0[2] == method.0[2]
        && method.0[3] == method.0[3] && method.0[4] == method.0[4] && method.0[5] == method.0[5]
        && method.0[6] == method.0[6] && method.0[7] == method.0[7]);
    let text = method.hex_text();
    assert(text.len() == 64);
    assert(text.subrange(limb_place(i), limb_place(i) + 8) =~= crate::text::hex(
        method.0[i] as nat,
        8,
    ));
}

/// Methods with the same digits are the same.
pub proof fn law_digits_tell_methods_apart(a: MethodHash, b: MethodHash)
    ensures
        a.hex_text() == b.hex_text() <==> a == b,
{
    if a.hex_text() == b.hex_text() {
        assert forall|i: int| 0 <= i < 8 implies #[trigger] a.0[i] == b.0[i] by {
            law_limbs_are_read_back(a, i);
            law_limbs_are_read_back(b, i);
        }
        lemma_same_limbs(a, b);
    }
}

/// Length of a method as a literal, and of what comes before the next one in a list.
pub const METHOD_LENGTH: usize = 66;

pub const METHOD_STRIDE: usize = 68;

proof fn lemma_method_text(method: MethodHash)
    ensures
        method_text(method).len() == METHOD_LENGTH,
        method_text(method)[0] == '"',
        method_text(method)[65] == '"',
        method_text(method).subrange(1, 65) == method.hex_text(),
{
    reveal_strlit("\"");
    law_limbs_are_read_back(method, 0);
    assert(method_text(method).subrange(1, 65) =~= method.hex_text());
}

/// Item `k` of a rendered list of methods holds, between quotation marks, the digits of
/// method `k`, and a comma and a space stand between the items.
pub proof fn law_methods_are_listed_in_order(methods: Seq<MethodHash>, n: int, k: int)
    requires
        0 <= k < n <= methods.len(),
    ensures
        methods_text(methods, n).len() == METHOD_STRIDE * (n - 1) + METHOD_LENGTH,
        methods_text(methods, n)[METHOD_STRIDE * k] == '"',
        methods_text(methods, n).subrange(METHOD_STRIDE * k + 1, METHOD_STRIDE * k + 65)
            == methods[k].hex_text(),
        methods_text(methods, n)[METHOD_STRIDE * k + 65] == '"',
        k + 1 < n ==> methods_text(methods, n)[METHOD_STRIDE * k + 66] == ','
            && methods_text(methods, n)[METHOD_STRIDE * k + 67] == ' ',
    decreases n,
{
    reveal_strlit(", ");
    lemma_method_text(methods[n - 1]);
    if n > 1 {
        let before = methods_text(methods, n - 1);
        let last = method_text(methods[n - 1]);
        let text = methods_text(methods, n);
        law_methods_are_listed_in_order(methods, n - 1, n - 2);
        if k < n - 1 {
            law_methods_are_listed_in_order(methods, n - 1, k);
            assert(text.subrange(METHOD_STRIDE * k + 1, METHOD_STRIDE * k + 65)
                =~= before.subrange(METHOD_STRIDE * k + 1, METHOD_STRIDE * k + 65));
        } else {
            assert(text.subrange(METHOD_STRIDE * k + 1, METHOD_STRIDE * k + 65) =~= last.subrange(
                1,
                65,
            ));
        }
    }
}

/// Lists of methods with the same text are the same.
pub proof fn law_texts_tell_method_lists_apart(a: Seq<MethodHash>, b: Seq<MethodHash>)
    ensures
        methods_text(a, a.len() as int) == methods_text(b, b.len() as int) <==> a == b,
{
    let m = a.len() as int;
    let n = b.len() as int;
    if methods_text(a, m) == methods_text(b, n) {
        if m > 0 {
            law_methods_are_listed_in_order(a, m, 0);
        }
        if n > 0 {
            law_methods_are_listed_in_order(b, n, 0);
        }
        assert(m == n);
        assert forall|k: int| 0 <= k < m implies #[trigger] a[k] == b[k] by {
            law_methods_are_listed_in_order(a, m, k);
            law_methods_are_listed_in_order(b, n, k);
            law_digits_tell_methods_apart(a[k], b[k]);
        }
        assert(a =~= b);
    }
}

/// What separates two lists in one: nothing where one of them is empty.
pub open spec fn separator(m: nat, n: nat) -> Seq<char> {
    if m == 0 || n == 0 {
        seq![]
    } else {
        seq![',', ' ']
    }
}

/// A list of methods is rendered as its parts are, behind one another.
pub proof fn law_method_lists_are_joined(a: Seq<MethodHash>, b: Seq<MethodHash>)
    ensures
        methods_text(a + b, (a + b).len() as int) == methods_text(a, a.len() as int) + separator(
            a.len(),
            b.len(),
        ) + methods_text(b, b.len() as int),
        b.len() == 1 ==> methods_text(b, 1) == method_text(b[0]),
{
    lemma_methods_joined(a, b, b.len() as int);
}

proof fn lemma_methods_joined(a: Seq<MethodHash>, b: Seq<MethodHash>, n: int)
    requires
        0 <= n <= b.len(),
    ensures
        methods_text(a + b, a.len() + n) == methods_text(a, a.len() as int) + separator(
            a.len(),
            n as nat,
        ) + methods_text(b, n),
    decreases n,
{
    reveal_strlit(", ");
    assert(", "@ =~= seq![',', ' ']);
    if n == 0 {
        lemma_methods_of_prefix(a, b, a.len() as int);
        assert(methods_text(a, a.len() as int) + separator(a.len(), 0) + methods_text(b, 0)
            =~= methods_text(a, a.len() as int));
    } else {
        lemma_methods_joined(a, b, n - 1);
        assert((a + b)[a.len() + n - 1] == b[n - 1]);
        assert(methods_text(a + b, a.len() + n) =~= methods_text(a, a.len() as int) + separator(
            a.len(),
            n as nat,
        ) + methods_text(b, n));
    }
}

proof fn lemma_methods_of_prefix(a: Seq<MethodHash>, b: Seq<MethodHash>, n: int)
    requires
        n <= a.len(),
    ensures
        methods_text(a + b, n) == methods_text(a, n),
    decreases n,
{
    if n > 0 {
        assert((a + b)[n - 1] == a[n - 1]);
        lemma_methods_of_prefix(a, b, n - 1);
    }
}

/// A list of inputs is rendered as its parts are, behind one another.
pub proof fn law_input_lists_are_joined(a: Seq<InputUtxo>, b: Seq<InputUtxo>)
    ensures
        inputs_text(a + b, (a + b).len() as int) == inputs_text(a, a.len() as int) + separator(
            a.len(),
            b.len(),
        ) + inputs_text(b, b.len() as int),
        b.len() == 1 ==> inputs_text(b, 1) == input_text(b[0]),
{
    lemma_inputs_joined(a, b, b.len() as int);
}

proof fn lemma_inputs_joined(a: Seq<InputUtxo>, b: Seq<InputUtxo>, n: int)
    requires
        0 <= n <= b.len(),
    ensures
        inputs_text(a + b, a.len() + n) == inputs_text(a, a.len() as int) + separator(
            a.len(),
            n as nat,
        ) + inputs_text(b, n),
    decreases n,
{
    reveal_strlit(", ");
    assert(", "@ =~= seq![',', ' ']);
    if n == 0 {
        lemma_inputs_of_prefix(a, b, a.len() as int);
        assert(inputs_text(a, a.len() as int) + separator(a.len(), 0) + inputs_text(b, 0)
            =~= inputs_text(a, a.len() as int));
    } else {
        lemma_inputs_joined(a, b, n - 1);
        assert((a + b)[a.len() + n - 1] == b[n - 1]);
        assert(inputs_text(a + b, a.len() + n) =~= inputs_text(a, a.len() as int) + separator(
            a.len(),
            n as nat,
        ) + inputs_text(b, n));
    }
}

proof fn lemma_inputs_of_prefix(a: Seq<InputUtxo>, b: Seq<InputUtxo>, n: int)
    requires
        n <= a.len(),
    ensures
        inputs_text(a + b, n) == inputs_text(a, n),
    decreases n,
{
    if n > 0 {
        assert((a + b)[n - 1] == a[n - 1]);
        lemma_inputs_of_prefix(a, b, n - 1);
    }
}

/// A list of outputs is rendered as its parts are, behind one another.
pub proof fn law_output_lists_are_joined(a: Seq<OutputUtxo>, b: Seq<OutputUtxo>)
    ensures
        outputs_text(a + b, (a + b).len() as int) == outputs_text(a, a.len() as int) + separator(
            a.len(),
            b.len(),
        ) + outputs_text(b, b.len() as int),
        b.len() == 1 ==> outputs_text(b, 1) == output_text(b[0]),
{
    lemma_outputs_joined(a, b, b.len() as int);
}

proof fn lemma_outputs_joined(a: Seq<OutputUtxo>, b: Seq<OutputUtxo>, n: int)
    requires
        0 <= n <= b.len(),
    ensures
        outputs_text(a + b, a.len() + n) == outputs_text(a, a.len() as int) + separator(
            a.len(),
            n as nat,
        ) + outputs_text(b, n),
    decreases n,
{
    reveal_strlit(", ");
    assert(", "@ =~= seq![',', ' ']);
    if n == 0 {
        lemma_outputs_of_prefix(a, b, a.len() as int);
        assert(outputs_text(a, a.len() as int) + separator(a.len(), 0) + outputs_text(b, 0)
            =~= outputs_text(a, a.len() as int));
    } else {
        lemma_outputs_joined(a, b, n - 1);
        assert((a + b)[a.len() + n - 1] == b[n - 1]);
        assert(outputs_text(a + b, a.len() + n) =~= outputs_text(a, a.len() as int) + separator(
            a.len(),
            n as nat,
        ) + outputs_text(b, n));
    }
}

proof fn lemma_outputs_of_prefix(a: Seq<OutputUtxo>, b: Seq<OutputUtxo>, n: int)
    requires
        n <= a.len(),
    ensures
        outputs_text(a + b, n) == outputs_text(a, n),
    decreases n,
{
    if n > 0 {
        assert((a + b)[n - 1] == a[n - 1]);
        lemma_outputs_of_prefix(a, b, n - 1);
    }
}

/// The lines of two executions behind one another are those of the one and then those of
/// the other.
pub proof fn law_step_lines_are_joined(a: Seq<Step>, b: Seq<Step>)
    ensures
        steps_text(a + b, (a + b).len() as int) == steps_text(a, a.len() as int) + steps_text(
            b,
            b.len() as int,
        ),
        b.len() == 1 ==> steps_text(b, 1) == step_line(b[0]),
{
    lemma_steps_joined(a, b, b.len() as int);
    if b.len() == 1 {
        assert(steps_text(b, 0) =~= seq![]);
        assert(steps_text(b, 1) =~= step_line(b[0]));
    }
}

proof fn lemma_steps_joined(a: Seq<Step>, b: Seq<Step>, n: int)
    requires
        0 <= n <= b.len(),
    ensures
        steps_text(a + b, a.len() + n) == steps_text(a, a.len() as int) + steps_text(b, n),
    decreases n,
{
    if n == 0 {
        lemma_steps_of_prefix(a, b, a.len() as int);
        assert(steps_text(a, a.len() as int) + steps_text(b, 0) =~= steps_text(
            a,
            a.len() as int,
        ));
    } else {
        lemma_steps_joined(a, b, n - 1);
        assert((a + b)[a.len() + n - 1] == b[n - 1]);
        assert(steps_text(a + b, a.len() + n) =~= steps_text(a, a.len() as int) + steps_text(
            b,
            n,
        ));
    }
}

proof fn lemma_steps_of_prefix(a: Seq<Step>, b: Seq<Step>, n: int)
    requires
        n <= a.len(),
    ensures
        steps_text(a + b, n) == steps_text(a, n),
    decreases n,
{
    if n > 0 {
        assert((a + b)[n - 1] == a[n - 1]);
        lemma_steps_of_prefix(a, b, n - 1);
    }
}

/// The words of a value are read back from the four numbers of its text, which commas
/// separate: a field element is what its number is modulo the order of the field, and a
/// word that is none has a number that no field element has.
pub proof fn law_values_are_read_back(value: StarstreamValue) -> (fields: Seq<Seq<char>>)
    ensures
        fields.len() == 4,
        value_text(value) == "List("@ + fields[0] + ", "@ + fields[1] + ", "@ + fields[2] + ", "@
            + fields[3] + ")"@,
        forall|i: int| #![trigger value.0[i]]
            0 <= i < 4 ==> {
                &&& fields[i].len() > 0
                &&& !occurs(',', fields[i])
                &&& value.0[i] < FIELD_MODULUS ==> residue(signed_number(fields[i])) == value.0[i]
                    && -FIELD_HALF <= signed_number(fields[i]) <= FIELD_HALF
                &&& value.0[i] >= FIELD_MODULUS ==> signed_number(fields[i]) > FIELD_HALF
            },
{
    let fields = Seq::new(4, |i: int| signed_decimal(centered(value.0[i])));
    assert forall|i: int| #![trigger value.0[i]] 0 <= i < 4 implies {
        &&& fields[i].len() > 0
        &&& !occurs(',', fields[i])
        &&& value.0[i] < FIELD_MODULUS ==> residue(signed_number(fields[i])) == value.0[i]
            && -FIELD_HALF <= signed_number(fields[i]) <= FIELD_HALF
        &&& value.0[i] >= FIELD_MODULUS ==> signed_number(fields[i]) > FIELD_HALF
    } by {
        law_signed_decimals_are_read_back(centered(value.0[i]));
        law_centered_words_restore(value.0[i]);
        let n = centered(value.0[i]);
        if n < 0 {
            law_decimals_are_read_back((-n) as nat);
        } else {
            law_decimals_are_read_back(n as nat);
        }
    }
    fields
}

/// A handle is read back from its text, which holds nothing but digits.
pub proof fn law_handles_are_read_back(handle: ResourceHandle)
    ensures
        in_base(handle_text(handle), 10) == handle.0,
        out_handle_text(Out(handle)) == "{ value: "@ + handle_text(handle) + " }"@,
        all_digits(handle_text(handle), handle_text(handle).len() as int),
{
    law_decimals_are_read_back(handle.0 as nat);
}

} // verus!
