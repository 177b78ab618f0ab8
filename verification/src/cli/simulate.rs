//! The options of the simulator, and its report as text.

use vstd::prelude::*;

use crate::application::simulator::ReportView;
use crate::application::{SimulationReport, SimulationRequest};
use crate::cli::command;
use crate::decimal;
use crate::domain::block::OutcomeView;
use crate::domain::digest;
use crate::domain::model;
use crate::domain::{ModelState, VerificationOutcome, VerificationSample};
use crate::text;

verus! {

/// What the options of the simulator ask for.
#[derive(Clone, Copy, Debug, PartialEq, Eq)]
pub enum ParsedSimulation {
    Help,
    Run(SimulationRequest),
}

/// The request that nothing has been changed in.
pub open spec fn default_request() -> SimulationRequest {
    SimulationRequest {
        steps: 16,
        samples: 6,
        seed: 42,
        sampling_entropy: 2_026,
        tamper_step: None,
    }
}

/// What reading the remaining options gives, starting from what has been read so far.
pub open spec fn options_from(request: SimulationRequest, args: Seq<Seq<char>>) -> Result<
    ParsedSimulation,
    Seq<char>,
>
    decreases args.len(),
{
    let size = command::number_after(args, usize::MAX as nat);
    let word = command::number_after(args, u64::MAX as nat);
    if args.len() == 0 {
        Ok(ParsedSimulation::Run(request))
    } else if args[0] == "--steps"@ {
        match size {
            Ok(steps) => options_from(
                SimulationRequest { steps: steps as usize, ..request },
                args.skip(2),
            ),
            Err(message) => Err(message),
        }
    } else if args[0] == "--samples"@ {
        match size {
            Ok(samples) => options_from(
                SimulationRequest { samples: samples as usize, ..request },
                args.skip(2),
            ),
            Err(message) => Err(message),
        }
    } else if args[0] == "--seed"@ {
        match word {
            Ok(seed) => options_from(
                SimulationRequest { seed: seed as u64, ..request },
                args.skip(2),
            ),
            Err(message) => Err(message),
        }
    } else if args[0] == "--entropy"@ {
        match word {
            Ok(entropy) => options_from(
                SimulationRequest { sampling_entropy: entropy as u64, ..request },
                args.skip(2),
            ),
            Err(message) => Err(message),
        }
    } else if args[0] == "--tamper-step"@ {
        match size {
            Ok(step) => options_from(
                SimulationRequest { tamper_step: Some(step as usize), ..request },
                args.skip(2),
            ),
            Err(message) => Err(message),
        }
    } else if args[0] == "-h"@ || args[0] == "--help"@ {
        Ok(ParsedSimulation::Help)
    } else {
        Err("unknown option '"@ + args[0] + "'"@)
    }
}

/// An executable result stands for a result over views.
pub open spec fn is_parsed(
    result: Result<ParsedSimulation, String>,
    expected: Result<ParsedSimulation, Seq<char>>,
) -> bool {
    match result {
        Ok(parsed) => expected == Ok::<ParsedSimulation, Seq<char>>(parsed),
        Err(message) => expected == Err::<ParsedSimulation, Seq<char>>(message@),
    }
}

/// Reads the options of the simulator.
pub fn parse_simulation_request(args: &[String]) -> (result: Result<ParsedSimulation, String>)
    ensures
        is_parsed(result, options_from(default_request(), text::string_views(args@))),
{
    let ghost views: Seq<Seq<char>> = text::string_views(args@);
    let mut request: SimulationRequest = SimulationRequest::default();
    let mut index: usize = 0;
    assert(views.skip(0) =~= views);
    while index < args.len()
        invariant
            index <= args@.len(),
            views == text::string_views(args@),
            options_from(default_request(), views) == options_from(
                request,
                views.skip(index as int),
            ),
        decreases args@.len() - index,
    {
        let ghost rest: Seq<Seq<char>> = views.skip(index as int);
        assert(rest[0] == args@[index as int]@);
        let flag: &str = args[index].as_str();
        if text::same_text(flag, "--steps") {
            match command::parse_next(args, index, usize::MAX as u64) {
                Ok(value) => request.steps = value as usize,
                Err(message) => return Err(message),
            }
        } else if text::same_text(flag, "--samples") {
            match command::parse_next(args, index, usize::MAX as u64) {
                Ok(value) => request.samples = value as usize,
                Err(message) => return Err(message),
            }
        } else if text::same_text(flag, "--seed") {
            match command::parse_next(args, index, u64::MAX) {
                Ok(value) => request.seed = value,
                Err(message) => return Err(message),
            }
        } else if text::same_text(flag, "--entropy") {
            match command::parse_next(args, index, u64::MAX) {
                Ok(value) => request.sampling_entropy = value,
                Err(message) => return Err(message),
            }
        } else if text::same_text(flag, "--tamper-step") {
            match command::parse_next(args, index, usize::MAX as u64) {
                Ok(value) => request.tamper_step = Some(value as usize),
                Err(message) => return Err(message),
            }
        } else if text::same_text(flag, "-h") || text::same_text(flag, "--help") {
            return Ok(ParsedSimulation::Help);
        } else {
            return Err(text::concat3("unknown option '", flag, "'"));
        }
        assert(rest.skip(2) =~= views.skip(index + 2));
        index += 2;
    }
    assert(views.skip(index as int) =~= Seq::<Seq<char>>::empty());
    Ok(ParsedSimulation::Run(request))
}

/// What keeps a simulation from running.
pub open spec fn request_fault(request: SimulationRequest) -> Option<Seq<char>> {
    if request.samples == 0 {
        Some("--samples must be greater than zero"@)
    } else if request.tamper_step matches Some(index) && index >= request.steps {
        Some("--tamper-step must be less than --steps"@)
    } else {
        None
    }
}

/// What the options of the simulator ask for, where that can be run.
pub open spec fn spec_prepare(args: Seq<Seq<char>>) -> Result<ParsedSimulation, Seq<char>> {
    match options_from(default_request(), args) {
        Ok(ParsedSimulation::Run(request)) => match request_fault(request) {
            Some(message) => Err(message),
            None => Ok(ParsedSimulation::Run(request)),
        },
        other => other,
    }
}

/// Reads the options of the simulator and checks that they can be run.
pub fn prepare_simulation(args: &[String]) -> (result: Result<ParsedSimulation, String>)
    ensures
        is_parsed(result, spec_prepare(text::string_views(args@))),
{
    let parsed: ParsedSimulation = match parse_simulation_request(args) {
        Ok(parsed) => parsed,
        Err(message) => return Err(message),
    };
    if let ParsedSimulation::Run(request) = parsed {
        if request.samples == 0 {
            return Err("--samples must be greater than zero".to_string());
        }
        if let Some(index) = request.tamper_step {
            if index >= request.steps {
                return Err("--tamper-step must be less than --steps".to_string());
            }
        }
    }
    Ok(parsed)
}

/// How a check is reported.
pub open spec fn spec_verdict(ok: bool) -> Seq<char> {
    if ok {
        "ok"@
    } else {
        "fail"@
    }
}

/// How a check is reported.
pub fn verdict(ok: bool) -> (word: &'static str)
    ensures
        word@ == spec_verdict(ok),
{
    if ok {
        "ok"
    } else {
        "fail"
    }
}

/// The decimal texts of indices.
pub open spec fn index_texts(indices: Seq<usize>) -> Seq<Seq<char>> {
    indices.map_values(|index: usize| decimal::int_text(index as int))
}

/// A list of indices in brackets.
pub open spec fn index_list(indices: Seq<usize>) -> Seq<char> {
    "["@ + text::join(index_texts(indices), ", "@) + "]"@
}

fn index_list_text(indices: &[usize]) -> (list: String)
    ensures
        list@ == index_list(indices@),
{
    let mut parts: Vec<String> = Vec::new();
    let mut at: usize = 0;
    assert(text::string_views(parts@) =~= index_texts(indices@.take(0)));
    while at < indices.len()
        invariant
            at <= indices@.len(),
            text::string_views(parts@) == index_texts(indices@.take(at as int)),
        decreases indices@.len() - at,
    {
        let ghost before: Seq<String> = parts@;
        parts.push(decimal::u64_text(indices[at] as u64));
        at += 1;
        assert(text::string_views(parts@) =~= text::string_views(before).push(
            decimal::int_text(indices@[at - 1] as int),
        ));
        assert(index_texts(indices@.take(at as int)) =~= index_texts(indices@.take(at - 1)).push(
            decimal::int_text(indices@[at - 1] as int),
        ));
    }
    assert(indices@.take(at as int) =~= indices@);
    let inner: String = text::join_strings(parts.as_slice(), ", ");
    text::concat3("[", inner.as_str(), "]")
}

/// A number, with spaces before it up to three columns.
pub open spec fn column(value: int) -> Seq<char> {
    let digits: Seq<char> = decimal::int_text(value);
    if digits.len() == 1 {
        "  "@ + digits
    } else if digits.len() == 2 {
        " "@ + digits
    } else {
        digits
    }
}

fn column_text(value: usize) -> (shown: String)
    ensures
        shown@ == column(value as int),
{
    let digits: String = decimal::u64_text(value as u64);
    let chars: Vec<char> = text::chars_of(digits.as_str());
    let mut shown: String = if chars.len() == 1 {
        "  ".to_string()
    } else if chars.len() == 2 {
        " ".to_string()
    } else {
        String::new()
    };
    shown.append(digits.as_str());
    assert(shown@ =~= column(value as int));
    shown
}

/// The line of one sample.
pub open spec fn sample_line(sample: VerificationSample) -> Seq<char> {
    "  step "@ + column(sample.index as int) + ": commitment="@ + spec_verdict(
        sample.commitment_ok,
    ) + " transition="@ + spec_verdict(sample.transition_ok)
}

fn sample_text(sample: &VerificationSample) -> (line: String)
    ensures
        line@ == sample_line(*sample),
{
    let mut line: String = "  step ".to_string();
    let shown: String = column_text(sample.index);
    line.append(shown.as_str());
    line.append(": commitment=");
    line.append(verdict(sample.commitment_ok));
    line.append(" transition=");
    line.append(verdict(sample.transition_ok));
    line
}

/// The lines of the samples.
pub open spec fn sample_lines(samples: Seq<VerificationSample>) -> Seq<Seq<char>> {
    samples.map_values(|sample: VerificationSample| sample_line(sample))
}

/// A model as a bracketed list of its weights.
pub open spec fn shown_model(held: ModelState) -> Seq<char> {
    "["@ + model::joined_weights(held@, ", "@) + "]"@
}

/// The first lines of a report: what was run, and what was sampled.
pub open spec fn run_lines(request: SimulationRequest, report: ReportView) -> Seq<Seq<char>> {
    seq![
        "ChessCoin local protocol simulator"@,
        "----------------------------------"@,
        "M_t                  "@ + shown_model(report.committed_trace.initial_model),
        "training steps       "@ + decimal::int_text(request.steps as int),
        "seed                 "@ + decimal::int_text(request.seed as int),
        "trace root           "@ + digest::hex_text(report.committed_trace.root@),
        "M_t+1                "@ + shown_model(report.committed_trace.candidate_model),
        "sampling entropy     "@ + decimal::int_text(request.sampling_entropy as int),
        "sampled indices      "@ + index_list(report.sampled_indices),
    ]
}

/// The line about tampering, where there was some.
pub open spec fn tamper_lines(tamper: Option<usize>) -> Seq<Seq<char>> {
    match tamper {
        Some(index) => seq!["tamper applied       step "@ + decimal::int_text(index as int)],
        None => Seq::empty(),
    }
}

/// The last lines of a report: how it ended.
pub open spec fn outcome_lines(outcome: OutcomeView) -> Seq<Seq<char>> {
    match outcome {
        OutcomeView::Accepted => seq!["outcome              ACCEPT"@],
        OutcomeView::Rejected { failed_indices } => seq![
            "outcome              REJECT"@,
            "failed indices       "@ + index_list(failed_indices),
        ],
    }
}

/// The lines of a report.
pub open spec fn report_lines(request: SimulationRequest, report: ReportView) -> Seq<Seq<char>> {
    run_lines(request, report) + tamper_lines(report.tamper_applied) + seq![
        ""@,
        "sample verification"@,
    ] + sample_lines(report.samples) + seq![""@] + outcome_lines(report.outcome)
}

fn labelled(label: &str, value: String) -> (line: String)
    ensures
        line@ == label@ + value@,
{
    let mut line: String = label.to_string();
    line.append(value.as_str());
    line
}

/// The lines that a simulation prints.
pub fn simulation_lines(request: &SimulationRequest, report: &SimulationReport) -> (lines: Vec<
    String,
>)
    ensures
        text::string_views(lines@) == report_lines(*request, report@),
{
    let ghost expected: ReportView = report@;
    let mut lines: Vec<String> = Vec::new();
    lines.push("ChessCoin local protocol simulator".to_string());
    lines.push("----------------------------------".to_string());
    lines.push(labelled("M_t                  ", report.committed_trace.initial_model.to_text()));
    lines.push(labelled("training steps       ", decimal::u64_text(request.steps as u64)));
    lines.push(labelled("seed                 ", decimal::u64_text(request.seed)));
    lines.push(labelled("trace root           ", report.committed_trace.root.to_hex()));
    lines.push(labelled("M_t+1                ", report.committed_trace.candidate_model.to_text()));
    lines.push(labelled("sampling entropy     ", decimal::u64_text(request.sampling_entropy)));
    lines.push(
        labelled("sampled indices      ", index_list_text(report.sampled_indices.as_slice())),
    );
    assert(text::string_views(lines@) =~= run_lines(*request, expected));
    let ghost first: Seq<Seq<char>> = run_lines(*request, expected) + tamper_lines(
        expected.tamper_applied,
    ) + seq![""@, "sample verification"@];
    if let Some(index) = report.tamper_applied {
        lines.push(labelled("tamper applied       step ", decimal::u64_text(index as u64)));
    }
    lines.push("".to_string());
    lines.push("sample verification".to_string());
    assert(text::string_views(lines@) =~= first);
    let mut at: usize = 0;
    assert(first + sample_lines(expected.samples.take(0)) =~= first);
    while at < report.samples.len()
        invariant
            at <= report.samples@.len(),
            expected.samples == report.samples@,
            text::string_views(lines@) == first + sample_lines(expected.samples.take(at as int)),
        decreases report.samples@.len() - at,
    {
        let ghost before: Seq<String> = lines@;
        lines.push(sample_text(&report.samples[at]));
        at += 1;
        assert(text::string_views(lines@) =~= text::string_views(before).push(
            sample_line(expected.samples[at - 1]),
        ));
        assert(first + sample_lines(expected.samples.take(at as int)) =~= (first + sample_lines(
            expected.samples.take(at - 1),
        )).push(sample_line(expected.samples[at - 1])));
    }
    assert(expected.samples.take(at as int) =~= expected.samples);
    lines.push("".to_string());
    match &report.outcome {
        VerificationOutcome::Accepted => {
            lines.push("outcome              ACCEPT".to_string());
        },
        VerificationOutcome::Rejected { failed_indices } => {
            lines.push("outcome              REJECT".to_string());
            lines.push(
                labelled("failed indices       ", index_list_text(failed_indices.as_slice())),
            );
        },
    }
    assert(text::string_views(lines@) =~= report_lines(*request, expected));
    lines
}

} // verus!
