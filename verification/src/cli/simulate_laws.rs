//! What the lines of a simulation say, read back from their text.

use vstd::prelude::*;

use crate::application::simulator;
use crate::application::simulator::ReportView;
use crate::application::simulator_laws;
use crate::application::SimulationRequest;
use crate::cli::simulate;
use crate::decimal;
use crate::domain::block::OutcomeView;
use crate::domain::digest;
use crate::domain::model;
use crate::domain::{ModelState, TraceEntry, VerificationSample};
use crate::ports::{HashPort, SamplingPort};
use crate::text;
use crate::text_laws;

verus! {

/// What stands in a line behind a label.
pub open spec fn behind(line: Seq<char>, label: Seq<char>) -> Seq<char> {
    line.skip(label.len() as int)
}

/// A line that begins with a label.
pub open spec fn has_label(line: Seq<char>, label: Seq<char>) -> bool {
    line.len() >= label.len() && line.take(label.len() as int) == label
}

/// Texts of numbers, one by one.
pub open spec fn are_written(parts: Seq<Seq<char>>, values: Seq<int>) -> bool {
    &&& parts.len() == values.len()
    &&& forall|i: int|
        0 <= i < parts.len() ==> text_laws::is_written(#[trigger] parts[i], values[i])
}

/// A list in brackets that reads back as these numbers.
pub open spec fn tells_list(list: Seq<char>, values: Seq<int>) -> bool {
    &&& list.len() >= 2
    &&& list[0] == '['
    &&& list.last() == ']'
    &&& exists|parts: Seq<Seq<char>>| #[trigger]
        are_written(parts, values) && text_laws::strung(parts, seq![',', ' ']) == list.subrange(
            1,
            list.len() - 1,
        )
}

/// The weights of a model as integers.
pub open spec fn weights_of(held: ModelState) -> Seq<int> {
    Seq::new(8, |i: int| held@[i] as int)
}

/// Indices as integers.
pub open spec fn numbers_of(indices: Seq<usize>) -> Seq<int> {
    Seq::new(indices.len(), |i: int| indices[i] as int)
}

/// The line of a number behind a label.
pub open spec fn tells_number(line: Seq<char>, label: Seq<char>, value: int) -> bool {
    has_label(line, label) && text_laws::is_written(behind(line, label), value)
}

/// The line of a list behind a label.
pub open spec fn tells_numbers(line: Seq<char>, label: Seq<char>, values: Seq<int>) -> bool {
    has_label(line, label) && tells_list(behind(line, label), values)
}

/// The line of a digest behind a label.
pub open spec fn tells_hex(line: Seq<char>, label: Seq<char>, bytes: Seq<u8>) -> bool {
    has_label(line, label) && text_laws::is_hex_of(behind(line, label), bytes)
}

/// A number in at least three columns, at the right, with blanks before it.
pub open spec fn is_column(shown: Seq<char>, value: int) -> bool {
    &&& shown.len() >= 3
    &&& exists|blanks: int|
        {
            &&& 0 <= blanks < shown.len()
            &&& blanks > 0 ==> shown.len() == 3
            &&& forall|i: int| 0 <= i < blanks ==> #[trigger] shown[i] == ' '
            &&& text_laws::is_written(#[trigger] shown.skip(blanks), value)
        }
}

/// The two words of a check.
pub open spec fn is_verdict(word: Seq<char>, ok: bool) -> bool {
    word == if ok {
        seq!['o', 'k']
    } else {
        seq!['f', 'a', 'i', 'l']
    }
}

/// The parts of the line of a sample.
pub open spec fn tells_sample_in(
    line: Seq<char>,
    sample: VerificationSample,
    shown: Seq<char>,
    first: Seq<char>,
    second: Seq<char>,
) -> bool {
    &&& line == "  step "@ + shown + ": commitment="@ + first + " transition="@ + second
    &&& is_column(shown, sample.index as int)
    &&& is_verdict(first, sample.commitment_ok)
    &&& is_verdict(second, sample.transition_ok)
}

/// The line of a sample: its index and its two verdicts.
pub open spec fn tells_sample(line: Seq<char>, sample: VerificationSample) -> bool {
    exists|shown: Seq<char>, first: Seq<char>, second: Seq<char>| #[trigger]
        tells_sample_in(line, sample, shown, first, second)
}

/// The first nine lines: what was run, and what was sampled.
pub open spec fn tells_run(
    lines: Seq<Seq<char>>,
    request: SimulationRequest,
    report: ReportView,
) -> bool {
    &&& lines.len() >= 9
    &&& lines[0] == "ChessCoin local protocol simulator"@
    &&& lines[1] == "----------------------------------"@
    &&& tells_numbers(
        lines[2],
        "M_t                  "@,
        weights_of(report.committed_trace.initial_model),
    )
    &&& tells_number(lines[3], "training steps       "@, request.steps as int)
    &&& tells_number(lines[4], "seed                 "@, request.seed as int)
    &&& tells_hex(lines[5], "trace root           "@, report.committed_trace.root@)
    &&& tells_numbers(
        lines[6],
        "M_t+1                "@,
        weights_of(report.committed_trace.candidate_model),
    )
    &&& tells_number(lines[7], "sampling entropy     "@, request.sampling_entropy as int)
    &&& tells_numbers(lines[8], "sampled indices      "@, numbers_of(report.sampled_indices))
}

/// The lines behind those: tampering, where there was some, then every sample, then how it ended.
pub open spec fn tells_checks(lines: Seq<Seq<char>>, report: ReportView) -> bool {
    let from: int = if report.tamper_applied is Some {
        10
    } else {
        9
    };
    let count: int = report.samples.len() as int;
    let end: int = from + 2 + count;
    &&& report.tamper_applied matches Some(index) ==> tells_number(
        lines[9],
        "tamper applied       step "@,
        index as int,
    )
    &&& lines.len() == if report.outcome is Accepted {
        end + 2
    } else {
        end + 3
    }
    &&& lines[from].len() == 0
    &&& lines[from + 1] == "sample verification"@
    &&& forall|i: int|
        0 <= i < count ==> #[trigger] tells_sample(lines[from + 2 + i], report.samples[i])
    &&& lines[end].len() == 0
    &&& match report.outcome {
        OutcomeView::Accepted => lines[end + 1] == "outcome              ACCEPT"@,
        OutcomeView::Rejected { failed_indices } => {
            &&& lines[end + 1] == "outcome              REJECT"@
            &&& tells_numbers(
                lines[end + 2],
                "failed indices       "@,
                numbers_of(failed_indices),
            )
        },
    }
}

/// A label and what stands behind it are told apart.
pub proof fn lemma_labelled(label: Seq<char>, rest: Seq<char>)
    ensures
        has_label(label + rest, label),
        behind(label + rest, label) == rest,
{
    assert((label + rest).take(label.len() as int) =~= label);
    assert((label + rest).skip(label.len() as int) =~= rest);
}

/// A number behind a label reads back.
pub proof fn lemma_number_line(label: Seq<char>, value: int)
    ensures
        tells_number(label + decimal::int_text(value), label, value),
{
    lemma_labelled(label, decimal::int_text(value));
    text_laws::lemma_number_is_written(value);
}

/// A digest behind a label reads back.
pub proof fn lemma_hex_line(label: Seq<char>, bytes: Seq<u8>)
    ensures
        tells_hex(label + digest::hex_text(bytes), label, bytes),
{
    lemma_labelled(label, digest::hex_text(bytes));
    text_laws::lemma_hex_shows_bytes(bytes);
}

proof fn lemma_list(parts: Seq<Seq<char>>, values: Seq<int>)
    requires
        parts.len() == values.len(),
        forall|i: int|
            0 <= i < parts.len() ==> #[trigger] parts[i] == decimal::int_text(values[i]),
    ensures
        tells_list("["@ + text::join(parts, ", "@) + "]"@, values),
{
    let list: Seq<char> = "["@ + text::join(parts, ", "@) + "]"@;
    reveal_strlit("[");
    reveal_strlit("]");
    reveal_strlit(", ");
    assert(", "@ =~= seq![',', ' ']);
    assert forall|i: int| 0 <= i < parts.len() implies text_laws::is_written(
        #[trigger] parts[i],
        values[i],
    ) by {
        text_laws::lemma_number_is_written(values[i]);
    }
    text_laws::lemma_join_strings_parts(parts, ", "@);
    assert(list.subrange(1, list.len() - 1) =~= text::join(parts, ", "@));
    assert(are_written(parts, values));
}

proof fn lemma_model_line(label: Seq<char>, held: ModelState)
    ensures
        tells_numbers(label + simulate::shown_model(held), label, weights_of(held)),
{
    broadcast use model::lemma_model_len;

    lemma_labelled(label, simulate::shown_model(held));
    lemma_list(model::weight_texts(held@), weights_of(held));
}

proof fn lemma_index_line(label: Seq<char>, indices: Seq<usize>)
    ensures
        tells_numbers(label + simulate::index_list(indices), label, numbers_of(indices)),
{
    lemma_labelled(label, simulate::index_list(indices));
    lemma_list(simulate::index_texts(indices), numbers_of(indices));
}

proof fn lemma_column(value: int)
    requires
        value >= 0,
    ensures
        is_column(simulate::column(value), value),
{
    let digits: Seq<char> = decimal::int_text(value);
    let shown: Seq<char> = simulate::column(value);
    reveal_strlit("  ");
    reveal_strlit(" ");
    text_laws::lemma_number_is_written(value);
    let blanks: int = shown.len() - digits.len();
    assert(shown.skip(blanks) =~= digits);
}

proof fn lemma_sample_line(sample: VerificationSample)
    ensures
        tells_sample(simulate::sample_line(sample), sample),
{
    reveal_strlit("ok");
    reveal_strlit("fail");
    assert("ok"@ =~= seq!['o', 'k']);
    assert("fail"@ =~= seq!['f', 'a', 'i', 'l']);
    lemma_column(sample.index as int);
    assert(tells_sample_in(
        simulate::sample_line(sample),
        sample,
        simulate::column(sample.index as int),
        simulate::spec_verdict(sample.commitment_ok),
        simulate::spec_verdict(sample.transition_ok),
    ));
}

/// The first lines of a report read back as what was run: the numbers of the request, the models at
/// both ends of the committed trace, its root and the sampled indices.
pub proof fn lemma_lines_tell_run(request: SimulationRequest, report: ReportView)
    ensures
        tells_run(simulate::report_lines(request, report), request, report),
{
    let lines: Seq<Seq<char>> = simulate::report_lines(request, report);
    let first: Seq<Seq<char>> = simulate::run_lines(request, report);
    assert forall|i: int| 0 <= i < 9 implies #[trigger] lines[i] == first[i] by {}
    lemma_model_line("M_t                  "@, report.committed_trace.initial_model);
    lemma_number_line("training steps       "@, request.steps as int);
    lemma_number_line("seed                 "@, request.seed as int);
    lemma_hex_line("trace root           "@, report.committed_trace.root@);
    lemma_model_line("M_t+1                "@, report.committed_trace.candidate_model);
    lemma_number_line("sampling entropy     "@, request.sampling_entropy as int);
    lemma_index_line("sampled indices      "@, report.sampled_indices);
}

/// The other lines of a report read back as its checks: the tampered step, the index and verdicts
/// of every sample in order, the outcome and the failed indices.
pub proof fn lemma_lines_tell_checks(request: SimulationRequest, report: ReportView)
    ensures
        tells_checks(simulate::report_lines(request, report), report),
{
    let lines: Seq<Seq<char>> = simulate::report_lines(request, report);
    let from: int = if report.tamper_applied is Some {
        10
    } else {
        9
    };
    let count: int = report.samples.len() as int;
    reveal_strlit("");
    assert(simulate::run_lines(request, report).len() == 9);
    if report.tamper_applied is Some {
        lemma_number_line("tamper applied       step "@, report.tamper_applied->0 as int);
    }
    assert forall|i: int| 0 <= i < count implies #[trigger] tells_sample(
        lines[from + 2 + i],
        report.samples[i],
    ) by {
        assert(lines[from + 2 + i] == simulate::sample_lines(report.samples)[i]);
        lemma_sample_line(report.samples[i]);
    }
    if report.outcome is Rejected {
        lemma_index_line(
            "failed indices       "@,
            report.outcome->failed_indices,
        );
    }
}

/// The line of the resulting model reads back as the model that the last committed step left; the
/// genesis model only where no step was asked for.
pub proof fn lemma_resulting_model_is_shown<H: HashPort, S: SamplingPort>(
    hasher: H,
    sampler: S,
    request: SimulationRequest,
)
    ensures
        ({
            let report: ReportView = simulator::spec_run(hasher, sampler, request);
            let lines: Seq<Seq<char>> = simulate::report_lines(request, report);
            let entries: Seq<TraceEntry> = report.committed_trace.entries;
            &&& entries.len() == request.steps
            &&& tells_numbers(
                lines[6],
                "M_t+1                "@,
                if request.steps == 0 {
                    seq![120int, -80int, 45int, 210int, -135int, 65int, 15int, -30int]
                } else {
                    weights_of(entries[request.steps - 1].step.state_after)
                },
            )
            &&& tells_numbers(
                lines[2],
                "M_t                  "@,
                seq![120int, -80int, 45int, 210int, -135int, 65int, 15int, -30int],
            )
        }),
{
    let report: ReportView = simulator::spec_run(hasher, sampler, request);
    lemma_lines_tell_run(request, report);
    simulator_laws::lemma_run_is_reported(hasher, sampler, request);
    simulator_laws::lemma_genesis_values();
    assert(weights_of(ModelState::spec_genesis()) =~= seq![
        120int,
        -80int,
        45int,
        210int,
        -135int,
        65int,
        15int,
        -30int,
    ]);
}

} // verus!
