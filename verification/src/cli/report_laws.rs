//! Which command is meant, what the options of the simulator change, and what a node prints, told
//! from the words and the numbers.

use vstd::prelude::*;

use crate::application::SimulationRequest;
use crate::cli::command;
use crate::cli::command::Selected;
use crate::cli::node::NodeRequestView;
use crate::cli::report;
use crate::cli::simulate;
use crate::cli::simulate::ParsedSimulation;
use crate::cli::simulate_laws;
use crate::decimal;
use crate::domain::digest;
use crate::node::config::NetworkView;
use crate::node::NodeSnapshot;
use crate::text_laws;
use crate::wire::reading_laws;

verus! {

/// A word that asks for help.
pub open spec fn asks_for_help(word: Seq<char>) -> bool {
    word == "-h"@ || word == "--help"@
}

/// The names of the commands and the options of the simulator differ.
proof fn lemma_words_differ()
    ensures
        "help"@ != "simulate"@,
        "help"@ != "node"@,
        "simulate"@ != "node"@,
        "-h"@ != "simulate"@,
        "-h"@ != "node"@,
        "--help"@ != "simulate"@,
        "--help"@ != "node"@,
        "-h"@[0] == '-',
        "--help"@[0] == '-',
        "simulate"@[0] != '-',
        "node"@[0] != '-',
        "help"@[0] != '-',
        "simulate"@.len() > 0,
        "-h"@.len() > 0,
        "--help"@.len() > 0,
        "node"@.len() > 0,
        "help"@.len() > 0,
        "--steps"@ != "--samples"@,
        "--steps"@ != "--seed"@,
        "--steps"@ != "--entropy"@,
        "--steps"@ != "--tamper-step"@,
        "--samples"@ != "--seed"@,
        "--samples"@ != "--entropy"@,
        "--samples"@ != "--tamper-step"@,
        "--seed"@ != "--entropy"@,
        "--seed"@ != "--tamper-step"@,
        "--entropy"@ != "--tamper-step"@,
{
    reveal_strlit("help");
    reveal_strlit("simulate");
    reveal_strlit("node");
    reveal_strlit("-h");
    reveal_strlit("--help");
    reveal_strlit("--steps");
    reveal_strlit("--samples");
    reveal_strlit("--seed");
    reveal_strlit("--entropy");
    reveal_strlit("--tamper-step");
    assert("help"@[0] != "node"@[0]);
    assert("help"@.len() == 4 && "simulate"@.len() == 8 && "node"@.len() == 4 && "-h"@.len() == 2
        && "--help"@.len() == 6);
    assert("--steps"@.len() == 7 && "--samples"@.len() == 9 && "--seed"@.len() == 6
        && "--entropy"@.len() == 9 && "--tamper-step"@.len() == 13);
    assert("--samples"@[2] != "--entropy"@[2]);
}

/// The command that the first word selects, and how many words name it. Without a word, or with an
/// option first, it is the simulator. Any other word is told.
pub proof fn lemma_selection_is_exact(args: Seq<Seq<char>>)
    ensures
        ({
            let selected: Result<Selected, Seq<char>> = command::spec_select(args);
            let word: Seq<char> = args[0];
            let dashed: bool = word.len() > 0 && word[0] == '-';
            &&& selected == Ok::<Selected, Seq<char>>(Selected::Help) <==> args.len() > 0 && (
            asks_for_help(word) || word == "help"@)
            &&& selected == Ok::<Selected, Seq<char>>(Selected::Simulate { skip: 1 })
                <==> args.len() > 0 && word == "simulate"@
            &&& selected == Ok::<Selected, Seq<char>>(Selected::Node { skip: 1 }) <==> args.len()
                > 0 && word == "node"@
            &&& selected == Ok::<Selected, Seq<char>>(Selected::Simulate { skip: 0 })
                <==> args.len() == 0 || (dashed && !asks_for_help(word))
            &&& selected is Err <==> args.len() > 0 && !dashed && word != "help"@ && word
                != "simulate"@ && word != "node"@
            &&& selected matches Err(message) ==> message == "unknown command '"@ + word + "'"@
        }),
{
    lemma_words_differ();
}

/// A simulation unless something is set: sixteen steps, six samples, seed 42, entropy 2026, no
/// tampering.
pub open spec fn is_default_simulation(request: SimulationRequest) -> bool {
    &&& request.steps == 16
    &&& request.samples == 6
    &&& request.seed == 42
    &&& request.sampling_entropy == 2026
    &&& request.tamper_step is None
}

/// An option of the simulator changes one number of the request.
pub open spec fn sets_number(
    flag: Seq<char>,
    value: Seq<char>,
    before: SimulationRequest,
    after: SimulationRequest,
) -> bool {
    ||| flag == "--steps"@ && reading_laws::reads_number(
        value,
        usize::MAX as int,
        after.steps as int,
    ) && after == (SimulationRequest { steps: after.steps, ..before })
    ||| flag == "--samples"@ && reading_laws::reads_number(
        value,
        usize::MAX as int,
        after.samples as int,
    ) && after == (SimulationRequest { samples: after.samples, ..before })
    ||| flag == "--seed"@ && reading_laws::reads_number(value, u64::MAX as int, after.seed as int)
        && after == (SimulationRequest { seed: after.seed, ..before })
    ||| flag == "--entropy"@ && reading_laws::reads_number(
        value,
        u64::MAX as int,
        after.sampling_entropy as int,
    ) && after == (SimulationRequest { sampling_entropy: after.sampling_entropy, ..before })
    ||| flag == "--tamper-step"@ && (after.tamper_step matches Some(step)
        && reading_laws::reads_number(value, usize::MAX as int, step as int)) && after == (
    SimulationRequest { tamper_step: after.tamper_step, ..before })
}

/// The options of the simulator that take a number.
pub open spec fn takes_number(flag: Seq<char>) -> bool {
    flag == "--steps"@ || flag == "--samples"@ || flag == "--seed"@ || flag == "--entropy"@ || flag
        == "--tamper-step"@
}

/// How the options of the simulator are read, one by one: each sets its own number and no other.
pub proof fn lemma_simulation_option_step(
    request: SimulationRequest,
    args: Seq<Seq<char>>,
    after: SimulationRequest,
)
    ensures
        is_default_simulation(simulate::default_request()),
        ({
            let read: Result<ParsedSimulation, Seq<char>> = simulate::options_from(request, args);
            let flag: Seq<char> = args[0];
            &&& args.len() == 0 ==> read == Ok::<ParsedSimulation, Seq<char>>(
                ParsedSimulation::Run(request),
            )
            &&& args.len() > 1 && sets_number(flag, args[1], request, after) ==> read
                == simulate::options_from(after, args.skip(2))
            &&& args.len() == 1 && takes_number(flag) ==> read == Err::<
                ParsedSimulation,
                Seq<char>,
            >(flag + " requires a value"@)
            &&& args.len() > 1 && takes_number(flag) && (forall|other: SimulationRequest|
                !sets_number(flag, args[1], request, other)) ==> read == Err::<
                ParsedSimulation,
                Seq<char>,
            >(flag + " received an invalid value"@)
            &&& args.len() > 0 && !takes_number(flag) && asks_for_help(flag) ==> read == Ok::<
                ParsedSimulation,
                Seq<char>,
            >(ParsedSimulation::Help)
            &&& args.len() > 0 && !takes_number(flag) && !asks_for_help(flag) ==> read == Err::<
                ParsedSimulation,
                Seq<char>,
            >("unknown option '"@ + flag + "'"@)
        }),
{
    lemma_words_differ();
    let flag: Seq<char> = args[0];
    let value: Seq<char> = args[1];
    let size: nat = usize::MAX as nat;
    let word: nat = u64::MAX as nat;
    if args.len() > 1 {
        lemma_number(value, size, after.steps as nat);
        lemma_number(value, size, after.samples as nat);
        lemma_number(value, word, after.seed as nat);
        lemma_number(value, word, after.sampling_entropy as nat);
        if after.tamper_step is Some {
            lemma_number(value, size, after.tamper_step->0 as nat);
        }
        if let Some(number) = decimal::spec_parse_unsigned(value, size) {
            lemma_number(value, size, number);
            let step: usize = number as usize;
            assert(flag == "--steps"@ ==> sets_number(
                flag,
                value,
                request,
                SimulationRequest { steps: step, ..request },
            ));
            assert(flag == "--samples"@ ==> sets_number(
                flag,
                value,
                request,
                SimulationRequest { samples: step, ..request },
            ));
            assert(flag == "--tamper-step"@ ==> sets_number(
                flag,
                value,
                request,
                SimulationRequest { tamper_step: Some(step), ..request },
            ));
        }
        if let Some(number) = decimal::spec_parse_unsigned(value, word) {
            lemma_number(value, word, number);
            let wide: u64 = number as u64;
            assert(flag == "--seed"@ ==> sets_number(
                flag,
                value,
                request,
                SimulationRequest { seed: wide, ..request },
            ));
            assert(flag == "--entropy"@ ==> sets_number(
                flag,
                value,
                request,
                SimulationRequest { sampling_entropy: wide, ..request },
            ));
        }
    }
}

proof fn lemma_number(value: Seq<char>, max: nat, number: nat)
    ensures
        decimal::spec_parse_unsigned(value, max) == Some(number) <==> reading_laws::reads_number(
            value,
            max as int,
            number as int,
        ),
{
    text_laws::lemma_unsigned_reading_is_exact(value, max, number);
}

/// A simulation that was asked for runs unless it would sample nothing, or tamper with a step that
/// there is not; that is told.
pub proof fn lemma_prepared_is_exact(args: Seq<Seq<char>>)
    ensures
        ({
            let read: Result<ParsedSimulation, Seq<char>> = simulate::options_from(
                simulate::default_request(),
                args,
            );
            let prepared: Result<ParsedSimulation, Seq<char>> = simulate::spec_prepare(args);
            match read {
                Ok(ParsedSimulation::Run(request)) => {
                    &&& request.samples == 0 ==> prepared == Err::<ParsedSimulation, Seq<char>>(
                        "--samples must be greater than zero"@,
                    )
                    &&& request.samples > 0 && (request.tamper_step matches Some(step) && step
                        >= request.steps) ==> prepared == Err::<ParsedSimulation, Seq<char>>(
                        "--tamper-step must be less than --steps"@,
                    )
                    &&& request.samples > 0 && !(request.tamper_step matches Some(step) && step
                        >= request.steps) ==> prepared == read
                },
                _ => prepared == read,
            }
        }),
{
}

/// The texts of labels and values, one behind the other.
pub open spec fn alternate(labels: Seq<Seq<char>>, values: Seq<Seq<char>>) -> Seq<char>
    decreases labels.len(),
{
    if labels.len() == 0 {
        Seq::empty()
    } else {
        labels[0] + values[0] + alternate(labels.skip(1), values.skip(1))
    }
}

/// The labels of the status line.
pub open spec fn status_labels() -> Seq<Seq<char>> {
    seq!["status               height="@, " accepted="@, " rejected="@, " head="@]
}

/// The status line reads back as height, accepted and rejected blocks, and head.
pub proof fn lemma_status_is_told(snapshot: NodeSnapshot) -> (values: Seq<Seq<char>>)
    ensures
        report::status_text(snapshot) == alternate(status_labels(), values),
        values.len() == 4,
        text_laws::is_written(values[0], snapshot.height as int),
        text_laws::is_written(values[1], snapshot.accepted_blocks as int),
        text_laws::is_written(values[2], snapshot.rejected_blocks as int),
        text_laws::is_hex_of(values[3], snapshot.head@),
{
    let values: Seq<Seq<char>> = seq![
        decimal::int_text(snapshot.height as int),
        decimal::int_text(snapshot.accepted_blocks as int),
        decimal::int_text(snapshot.rejected_blocks as int),
        digest::hex_text(snapshot.head@),
    ];
    text_laws::lemma_number_is_written(snapshot.height as int);
    text_laws::lemma_number_is_written(snapshot.accepted_blocks as int);
    text_laws::lemma_number_is_written(snapshot.rejected_blocks as int);
    text_laws::lemma_hex_shows_bytes(snapshot.head@);
    reveal_with_fuel(alternate, 5);
    assert(report::status_text(snapshot) =~= alternate(status_labels(), values));
    values
}

/// The labels of the line about the network.
pub open spec fn network_labels() -> Seq<Seq<char>> {
    seq![
        "network              id="@,
        " protocol="@,
        " chain="@,
        " max_message_bytes="@,
        " max_peers="@,
        " max_inbound_connections="@,
    ]
}

/// The line about the network reads back as its name, version, fingerprint and limits.
pub proof fn lemma_network_is_told(network: NetworkView) -> (values: Seq<Seq<char>>)
    ensures
        report::network_text(network) == alternate(network_labels(), values),
        values.len() == 6,
        values[0] == network.wire.network_id,
        text_laws::is_written(values[1], network.wire.protocol_version as int),
        text_laws::is_hex_of(values[2], network.wire.chain_fingerprint@),
        text_laws::is_written(values[3], network.max_message_bytes as int),
        text_laws::is_written(values[4], network.max_peers as int),
        text_laws::is_written(values[5], network.max_inbound_connections as int),
{
    let values: Seq<Seq<char>> = seq![
        network.wire.network_id,
        decimal::int_text(network.wire.protocol_version as int),
        digest::hex_text(network.wire.chain_fingerprint@),
        decimal::int_text(network.max_message_bytes as int),
        decimal::int_text(network.max_peers as int),
        decimal::int_text(network.max_inbound_connections as int),
    ];
    text_laws::lemma_number_is_written(network.wire.protocol_version as int);
    text_laws::lemma_hex_shows_bytes(network.wire.chain_fingerprint@);
    text_laws::lemma_number_is_written(network.max_message_bytes as int);
    text_laws::lemma_number_is_written(network.max_peers as int);
    text_laws::lemma_number_is_written(network.max_inbound_connections as int);
    reveal_with_fuel(alternate, 7);
    assert(report::network_text(network) =~= alternate(network_labels(), values));
    values
}

/// The eleven lines at the end read back as the counts of the snapshot and its head.
pub proof fn lemma_final_lines_are_told(snapshot: NodeSnapshot)
    ensures
        ({
            let lines: Seq<Seq<char>> = report::final_texts(snapshot);
            &&& lines.len() == 11
            &&& simulate_laws::tells_number(
                lines[0],
                "final height         "@,
                snapshot.height as int,
            )
            &&& simulate_laws::tells_number(
                lines[1],
                "mined blocks         "@,
                snapshot.mined_blocks as int,
            )
            &&& simulate_laws::tells_number(
                lines[2],
                "known blocks         "@,
                snapshot.known_blocks as int,
            )
            &&& simulate_laws::tells_number(
                lines[3],
                "accepted blocks      "@,
                snapshot.accepted_blocks as int,
            )
            &&& simulate_laws::tells_number(
                lines[4],
                "rejected blocks      "@,
                snapshot.rejected_blocks as int,
            )
            &&& simulate_laws::tells_number(
                lines[5],
                "synced blocks        "@,
                snapshot.synced_blocks as int,
            )
            &&& simulate_laws::tells_number(
                lines[6],
                "reorgs               "@,
                snapshot.reorgs as int,
            )
            &&& simulate_laws::tells_number(
                lines[7],
                "peer rejections      "@,
                snapshot.peer_rejections as int,
            )
            &&& simulate_laws::tells_number(
                lines[8],
                "failed responses     "@,
                snapshot.failed_responses as int,
            )
            &&& simulate_laws::tells_number(
                lines[9],
                "known peers          "@,
                snapshot.known_peers@.len() as int,
            )
            &&& simulate_laws::tells_hex(lines[10], "head                 "@, snapshot.head@)
        }),
{
    simulate_laws::lemma_number_line("final height         "@, snapshot.height as int);
    simulate_laws::lemma_number_line("mined blocks         "@, snapshot.mined_blocks as int);
    simulate_laws::lemma_number_line("known blocks         "@, snapshot.known_blocks as int);
    simulate_laws::lemma_number_line("accepted blocks      "@, snapshot.accepted_blocks as int);
    simulate_laws::lemma_number_line("rejected blocks      "@, snapshot.rejected_blocks as int);
    simulate_laws::lemma_number_line("synced blocks        "@, snapshot.synced_blocks as int);
    simulate_laws::lemma_number_line("reorgs               "@, snapshot.reorgs as int);
    simulate_laws::lemma_number_line("peer rejections      "@, snapshot.peer_rejections as int);
    simulate_laws::lemma_number_line("failed responses     "@, snapshot.failed_responses as int);
    simulate_laws::lemma_number_line(
        "known peers          "@,
        snapshot.known_peers@.len() as int,
    );
    simulate_laws::lemma_hex_line("head                 "@, snapshot.head@);
}

/// The lines at the start: name, addresses, network, peers and height, then one for continuous
/// mining, one for a single block and one for running without end, where they were asked for.
pub proof fn lemma_startup_lines_are_told(
    snapshot: NodeSnapshot,
    network: NetworkView,
    request: NodeRequestView,
    listening: Seq<char>,
    advertising: Seq<char>,
    peers: Seq<Seq<char>>,
)
    ensures
        ({
            let lines: Seq<Seq<char>> = report::startup_texts(
                snapshot,
                network,
                request,
                listening,
                advertising,
                peers,
            );
            let miner: int = if request.mine {
                1
            } else {
                0
            };
            let once: int = if request.mine_once {
                1
            } else {
                0
            };
            let endless: int = if request.run_ms == 0 {
                1
            } else {
                0
            };
            &&& lines.len() == 8 + miner + once + endless
            &&& lines[0] == "ChessCoin node v0.1"@
            &&& lines[1] == "-------------------"@
            &&& simulate_laws::has_label(lines[2], "node id              "@)
            &&& simulate_laws::behind(lines[2], "node id              "@) == snapshot.node_id@
            &&& simulate_laws::has_label(lines[3], "listening            "@)
            &&& simulate_laws::behind(lines[3], "listening            "@) == listening
            &&& simulate_laws::has_label(lines[4], "advertising          "@)
            &&& simulate_laws::behind(lines[4], "advertising          "@) == advertising
            &&& lines[5] == report::network_text(network)
            &&& lines[6] == "peers                ["@ + text_laws::strung(peers, seq![',', ' '])
                + "]"@
            &&& simulate_laws::tells_number(
                lines[7],
                "height               "@,
                snapshot.height as int,
            )
            &&& miner == 1 ==> lines[8] == "miner                continuous"@
            &&& once == 1 ==> lines[8 + miner] == "mining               one block requested"@
            &&& endless == 1 ==> lines[8 + miner + once]
                == "mode                 running until process is stopped"@
        }),
{
    simulate_laws::lemma_labelled("node id              "@, snapshot.node_id@);
    simulate_laws::lemma_labelled("listening            "@, listening);
    simulate_laws::lemma_labelled("advertising          "@, advertising);
    simulate_laws::lemma_number_line("height               "@, snapshot.height as int);
    reveal_strlit(", ");
    assert(", "@ =~= seq![',', ' ']);
    text_laws::lemma_join_strings_parts(peers, ", "@);
}

} // verus!
