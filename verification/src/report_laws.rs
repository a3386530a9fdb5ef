//! What the report of a failed replay says of the trace that was replayed.

use vstd::prelude::*;

use crate::quint::{
    before_step, diagnosis, fails_first_at, law_rejections_are_attributed,
    law_steps_stand_in_their_lines, line_feeds, pointed, points_at, report_lines, stream_text,
    Rejection, RenderedModule, HEAD_LINES,
};
use crate::text::{all_digits, decimal, has, has_at, lines, location_line};
use crate::text_laws::{
    blank, law_decimals_are_parsed, law_decimals_are_read_back, law_line_feeds_end_lines,
    law_lines_of_both, law_locations_name_their_line, law_texts_are_trimmed,
    law_trimming_removes_white_space, occurs, tight,
};
use crate::trace::{Step, TransactionStatement};

verus! {

/// A line of a report that has a location behind `at`, with white space round it, points
/// where the location does.
pub proof fn law_locations_are_pointed_at(a: Seq<char>, place: Seq<char>, b: Seq<char>)
    requires
        blank(a),
        blank(b),
        place.len() > 0,
        !crate::text::is_white(place.last()),
    ensures
        pointed(a + ("at "@ + place) + b) == location_line(place),
{
    let text = "at "@ + place;
    reveal_strlit("at ");
    assert(text[0] == 'a');
    assert(text.last() == place.last());
    law_trimming_removes_white_space(a, text, b);
    assert(text.subrange(0, 3) =~= "at "@);
    assert(text.skip(3) =~= place);
}

/// A line of a report that has no `at` behind its white space points nowhere.
pub proof fn law_other_lines_point_nowhere(a: Seq<char>, text: Seq<char>, b: Seq<char>)
    requires
        blank(a),
        blank(b),
        tight(text),
        forall|place: Seq<char>| text != #[trigger] ("at "@ + place),
    ensures
        pointed(a + text + b) is None,
{
    law_trimming_removes_white_space(a, text, b);
    if has_at(text, "at "@, 0) {
        reveal_strlit("at ");
        assert(text =~= "at "@ + text.skip(3));
    }
}

/// The line of a report that points at line `line` of a file.
pub open spec fn pointing_line(
    indent: Seq<char>,
    path: Seq<char>,
    line: nat,
    column: Seq<char>,
) -> Seq<char> {
    indent + ("at "@ + (path + seq![':'] + decimal(line) + seq![':'] + column))
}

proof fn lemma_pointing_line(indent: Seq<char>, path: Seq<char>, line: usize, column: Seq<char>)
    requires
        blank(indent),
        !occurs('\n', indent),
        !occurs('\n', path),
        column.len() > 0,
        all_digits(column, column.len() as int),
    ensures
        pointed(pointing_line(indent, path, line as nat, column)) == Some(line),
        !occurs('\n', pointing_line(indent, path, line as nat, column)),
        pointing_line(indent, path, line as nat, column).len() > 0,
        pointing_line(indent, path, line as nat, column).last() != '\r',
{
    let digits = decimal(line as nat);
    let place = path + seq![':'] + digits + seq![':'] + column;
    let text = pointing_line(indent, path, line as nat, column);
    reveal_strlit("at ");
    law_decimals_are_read_back(line as nat);
    law_decimals_are_parsed(line);
    assert(!occurs(':', digits)) by {
        assert forall|i: int| 0 <= i < digits.len() implies #[trigger] digits[i] != ':' by {}
    }
    assert(!occurs(':', column)) by {
        assert forall|i: int| 0 <= i < column.len() implies #[trigger] column[i] != ':' by {}
    }
    law_locations_name_their_line(path, digits, column);
    let last = column[column.len() - 1];
    assert('0' <= last <= '9');
    assert(place.last() == last);
    assert(text.last() == last);
    law_locations_are_pointed_at(indent, place, seq![]);
    assert(indent + ("at "@ + place) + Seq::<char>::empty() =~= text);
    assert(!occurs('\n', text)) by {
        assert forall|i: int| 0 <= i < text.len() implies #[trigger] text[i] != '\n' by {
            let n = indent.len() as int;
            let m = n + 3;
            let p = m + path.len();
            let d = p + 1 + digits.len();
            if i < n {
                assert(text[i] == indent[i]);
            } else if i < m {
                assert(text[i] == "at "@[i - n]);
            } else if i < p {
                assert(text[i] == path[i - m]);
            } else if i == p {
            } else if i < d {
                assert(text[i] == digits[i - p - 1]);
            } else if i == d {
            } else {
                assert(text[i] == column[i - d - 1]);
            }
        }
    }
}

/// Whether a text is made of lines that do not report a failed run.
pub open spec fn reports_nothing(text: Seq<char>) -> bool {
    forall|k: int|
        0 <= k < lines(text).len() ==> !crate::text::has(
            #[trigger] lines(text)[k],
            "Error [QNT51"@,
        )
}

/// What a run prints of what is not enabled: a line with a code, and, behind a few other
/// lines, one that points at line `line` of a file.
pub open spec fn rejection_text(
    code: Seq<char>,
    gap: Seq<char>,
    indent: Seq<char>,
    path: Seq<char>,
    line: nat,
    column: Seq<char>,
    rest: Seq<char>,
) -> Seq<char> {
    code + seq!['\n'] + (gap + (pointing_line(indent, path, line, column) + seq!['\n'] + rest))
}

/// Whether the parts of a [`rejection_text`] are in order: the line with the code has
/// another one than `QNT511`, at most three lines that point nowhere come behind it, and
/// the location has a column.
pub open spec fn in_order(
    code: Seq<char>,
    gap: Seq<char>,
    indent: Seq<char>,
    path: Seq<char>,
    column: Seq<char>,
) -> bool {
    &&& has(code, "Error [QNT51"@)
    &&& !crate::text::has(code, "Error [QNT511]"@)
    &&& !occurs('\n', code)
    &&& code.last() != '\r'
    &&& gap.len() == 0 || gap.last() == '\n'
    &&& lines(gap).len() <= 3
    &&& forall|k: int| 0 <= k < lines(gap).len() ==> pointed(#[trigger] lines(gap)[k]) is None
    &&& blank(indent)
    &&& !occurs('\n', indent)
    &&& !occurs('\n', path)
    &&& column.len() > 0
    &&& all_digits(column, column.len() as int)
}

/// The lines of a [`rejection_text`].
proof fn lemma_rejection_lines(
    code: Seq<char>,
    gap: Seq<char>,
    indent: Seq<char>,
    path: Seq<char>,
    line: usize,
    column: Seq<char>,
    rest: Seq<char>,
)
    requires
        in_order(code, gap, indent, path, column),
    ensures
        lines(rejection_text(code, gap, indent, path, line as nat, column, rest)) == seq![code]
            + lines(gap) + seq![pointing_line(indent, path, line as nat, column)] + lines(rest),
{
    lemma_pointing_line(indent, path, line, column);
    let text = pointing_line(indent, path, line as nat, column);
    let last = text + seq!['\n'] + rest;
    law_line_feeds_end_lines(code, gap + last);
    law_lines_of_both(gap, last);
    law_line_feeds_end_lines(text, rest);
    assert(seq![code] + (lines(gap) + (seq![text] + lines(rest))) =~= seq![code] + lines(gap)
        + seq![text] + lines(rest));
}

/// Behind lines that report nothing, a rejection points at its line.
proof fn lemma_rejection_points(
    before: Seq<Seq<char>>,
    code: Seq<char>,
    gap: Seq<char>,
    indent: Seq<char>,
    path: Seq<char>,
    line: usize,
    column: Seq<char>,
    rest: Seq<char>,
    behind: Seq<Seq<char>>,
)
    requires
        forall|k: int|
            0 <= k < before.len() ==> !crate::text::has(#[trigger] before[k], "Error [QNT51"@),
        in_order(code, gap, indent, path, column),
    ensures
        points_at(
            before + lines(rejection_text(code, gap, indent, path, line as nat, column, rest))
                + behind,
            line,
        ),
{
    lemma_rejection_lines(code, gap, indent, path, line, column, rest);
    lemma_pointing_line(indent, path, line, column);
    let text = pointing_line(indent, path, line as nat, column);
    let report = before + (seq![code] + lines(gap) + seq![text] + lines(rest)) + behind;
    let k = before.len() as int;
    let m = k + 1 + lines(gap).len();
    assert(report[k] == code);
    assert(report[m] == text);
    assert forall|j: int| 0 <= j < k implies !crate::text::has(
        #[trigger] report[j],
        "Error [QNT51"@,
    ) by {
        assert(report[j] == before[j]);
    }
    assert forall|j: int| k < j < m implies pointed(#[trigger] report[j]) is None by {
        assert(report[j] == lines(gap)[j - k - 1]);
    }
    assert(fails_first_at(report, k));
    assert(pointed(report[m]) == Some(line));
}

/// What a report says that points at the line in which a step stands, or at the one
/// behind the steps.
proof fn lemma_attributed(
    module: RenderedModule,
    steps: Seq<Step>,
    statement: Option<TransactionStatement>,
    i: int,
    report: Seq<Seq<char>>,
)
    requires
        module.replays(steps, statement),
        0 <= i <= steps.len(),
        steps.len() + HEAD_LINES + 1 <= usize::MAX,
        points_at(report, (HEAD_LINES + 1 + i) as usize),
    ensures
        diagnosis(report, module.step_lines@, module.complete_line) == Some(
            if i < steps.len() {
                Rejection::Step(i as usize)
            } else {
                Rejection::Incomplete
            },
        ),
{
    let line = (HEAD_LINES + 1 + i) as usize;
    law_rejections_are_attributed(report, module.step_lines@, module.complete_line);
    if i < steps.len() {
        assert(module.step_lines@[i] == line);
    }
}

/// Number of the line that step `i` stands in; of the line behind the steps where `i` is
/// their number.
pub open spec fn line_of_step(
    steps: Seq<Step>,
    statement: Option<TransactionStatement>,
    i: int,
) -> nat {
    let before = before_step(steps, statement, i);
    (line_feeds(before, before.len() as int) + 1) as nat
}

/// A report that points at the line in which a step stands rejects that step, and one that
/// points at the line behind the steps finds the execution incomplete, on whichever stream
/// the rejection is printed, and whatever is printed behind it.
pub proof fn law_the_step_in_the_line_is_rejected(
    module: RenderedModule,
    steps: Seq<Step>,
    statement: Option<TransactionStatement>,
    i: int,
    noise: Seq<char>,
    code: Seq<char>,
    gap: Seq<char>,
    indent: Seq<char>,
    path: Seq<char>,
    column: Seq<char>,
    rest: Seq<char>,
    other: Seq<char>,
)
    requires
        module.replays(steps, statement),
        0 <= i <= steps.len(),
        steps.len() + HEAD_LINES + 1 <= usize::MAX,
        noise.len() == 0 || noise.last() == '\n',
        reports_nothing(noise),
        in_order(code, gap, indent, path, column),
    ensures
        diagnosis(
            report_lines(
                noise + rejection_text(
                    code,
                    gap,
                    indent,
                    path,
                    line_of_step(steps, statement, i),
                    column,
                    rest,
                ),
                other,
            ),
            module.step_lines@,
            module.complete_line,
        ) == Some(
            if i < steps.len() {
                Rejection::Step(i as usize)
            } else {
                Rejection::Incomplete
            },
        ),
        reports_nothing(other) ==> diagnosis(
            report_lines(
                other,
                noise + rejection_text(
                    code,
                    gap,
                    indent,
                    path,
                    line_of_step(steps, statement, i),
                    column,
                    rest,
                ),
            ),
            module.step_lines@,
            module.complete_line,
        ) == Some(
            if i < steps.len() {
                Rejection::Step(i as usize)
            } else {
                Rejection::Incomplete
            },
        ),
{
    law_steps_stand_in_their_lines(steps, statement, i);
    let line = (HEAD_LINES + 1 + i) as usize;
    assert(line == line_of_step(steps, statement, i));
    let text = rejection_text(code, gap, indent, path, line as nat, column, rest);
    law_lines_of_both(noise, text);
    lemma_rejection_points(
        lines(noise),
        code,
        gap,
        indent,
        path,
        line,
        column,
        rest,
        lines(other),
    );
    lemma_attributed(module, steps, statement, i, report_lines(noise + text, other));
    if reports_nothing(other) {
        let before = lines(other) + lines(noise);
        assert forall|k: int| 0 <= k < before.len() implies !crate::text::has(
            #[trigger] before[k],
            "Error [QNT51"@,
        ) by {
            if k < lines(other).len() {
                assert(before[k] == lines(other)[k]);
            } else {
                assert(before[k] == lines(noise)[k - lines(other).len()]);
            }
        }
        lemma_rejection_points(before, code, gap, indent, path, line, column, rest, seq![]);
        assert(before + lines(text) + Seq::<Seq<char>>::empty() =~= report_lines(
            other,
            noise + text,
        ));
        lemma_attributed(module, steps, statement, i, report_lines(other, noise + text));
    }
}

/// A report without a line that reports a failed run says nothing of the replay.
pub proof fn law_reports_without_a_code_say_nothing(
    stdout: Seq<char>,
    stderr: Seq<char>,
    step_lines: Seq<usize>,
    complete_line: usize,
)
    requires
        reports_nothing(stdout),
        reports_nothing(stderr),
        step_lines.len() <= usize::MAX,
    ensures
        diagnosis(report_lines(stdout, stderr), step_lines, complete_line) is None,
{
    let report = report_lines(stdout, stderr);
    law_rejections_are_attributed(report, step_lines, complete_line);
    assert forall|k: int| !#[trigger] fails_first_at(report, k) by {
        if 0 <= k < lines(stdout).len() {
            assert(report[k] == lines(stdout)[k]);
        } else if 0 <= k < report.len() {
            assert(report[k] == lines(stderr)[k - lines(stdout).len()]);
        }
    }
}

/// A stream that holds anything but white space is shown whole under its heading, and a
/// blank one is left out.
pub proof fn law_blank_streams_are_left_out(heading: Seq<char>, stream: Seq<char>)
    ensures
        blank(stream) ==> stream_text(heading, stream).len() == 0,
        !blank(stream) ==> stream_text(heading, stream) == heading + stream,
{
    let _ = law_texts_are_trimmed(stream);
}

} // verus!
