//! What calls that read and write lines give back, told from the characters of the lines.

use vstd::prelude::*;

use crate::adapters::ToyHash;
use crate::application::fork_choice;
use crate::application::fork_choice::{ForkChoiceState, ForkView};
use crate::application::ChainConfig;
use crate::cli::command;
use crate::cli::command::Selected;
use crate::cli::node;
use crate::cli::node::{Argument, ConfigEntry, ParsedNode};
use crate::cli::option_laws;
use crate::cli::report;
use crate::cli::report_laws;
use crate::cli::simulate;
use crate::cli::simulate::ParsedSimulation;
use crate::cli::simulate_laws;
use crate::decimal;
use crate::domain::{Block, Digest};
use crate::node::config::{NetworkConfig, NodeConfig, PeerAddr};
use crate::node::reader;
use crate::node::reader::IncomingReadError;
use crate::node::setup_laws;
use crate::node::state;
use crate::node::state::{NodeSnapshot, NodeState, NodeView, StartError, StartErrorView};
use crate::ports::HashPort;
use crate::storage;
use crate::storage::format_laws;
use crate::storage::{LogTail, StorageError};
use crate::text;
use crate::text_laws;
use crate::wire::envelope;
use crate::wire::envelope::WireConfig;
use crate::wire::fields;
use crate::wire::message;
use crate::wire::message::PeerMessage;
use crate::wire::reading_laws;
use crate::wire::writing_laws;

verus! {

/// A number is written in decimal.
pub proof fn lemma_number_calls(value: u64, signed: i64, shown: String, other: String)
    requires
        call_ensures(decimal::u64_text, (value,), shown),
        call_ensures(decimal::i64_text, (signed,), other),
    ensures
        text_laws::is_written(shown@, value as int),
        text_laws::is_written(other@, signed as int),
{
    text_laws::lemma_number_is_written(value as int);
    text_laws::lemma_number_is_written(signed as int);
}

/// A number is read exactly where its digits say it, within the bound.
pub proof fn lemma_parse_calls(
    field: &[char],
    max: u64,
    read: Option<u64>,
    signed: Option<i64>,
    value: u64,
    other: i64,
)
    requires
        call_ensures(decimal::parse_unsigned, (field, max), read),
        call_ensures(decimal::parse_i64, (field,), signed),
    ensures
        read == Some(value) <==> reading_laws::reads_number(field@, max as int, value as int),
        signed == Some(other) <==> reading_laws::reads_signed(field@, other as int),
{
    reading_laws::lemma_number_reading(field@, max as nat, Seq::empty(), value as nat);
    reading_laws::lemma_signed_reading(field@, Seq::empty(), other as int);
}

/// A message is written as the texts of its fields, with a bar between neighbours; a block
/// likewise.
pub proof fn lemma_encode_calls(
    held: PeerMessage,
    line: String,
    block: Block,
    other: String,
) -> (written: (Seq<Seq<char>>, Seq<Seq<char>>))
    requires
        call_ensures(message::encode_message, (&held,), line),
        call_ensures(message::encode_block_message, (&block,), other),
    ensures
        writing_laws::writes_message(written.0, held@),
        line@ == text_laws::strung(written.0, seq!['|']),
        writing_laws::writes_block(written.1, block@),
        other@ == text_laws::strung(written.1, seq!['|']),
{
    let first: Seq<Seq<char>> = writing_laws::lemma_message_writing(held@);
    let second: Seq<Seq<char>> = writing_laws::lemma_message_writing(
        message::MessageView::Block(block@),
    );
    (first, second)
}

/// An enveloped message is written as the four fields of the envelope and those of the message.
pub proof fn lemma_encode_network_call(
    wire: WireConfig,
    held: PeerMessage,
    line: String,
) -> (written: (Seq<Seq<char>>, Seq<Seq<char>>))
    requires
        call_ensures(envelope::encode_network_message, (&wire, &held), line),
    ensures
        writing_laws::writes_envelope(written.0, wire@),
        writing_laws::writes_message(written.1, held@),
        line@ == text_laws::strung(written.0 + written.1, seq!['|']),
{
    writing_laws::lemma_network_writing(wire@, held@)
}

/// A line reads as a message exactly where bars cut it into the fields of that message.
pub proof fn lemma_decode_call(line: &str, kept: Seq<char>, read: Result<PeerMessage, String>)
    requires
        reading_laws::is_trimmed(line@, kept),
        call_ensures(message::decode_message, (line,), read),
    ensures
        read matches Ok(held) ==> exists|parts: Seq<Seq<char>>| #[trigger]
            reading_laws::is_cut(kept, '|', parts) && reading_laws::reads_message(parts, held@),
        read is Err ==> forall|parts: Seq<Seq<char>>, held: message::MessageView|
            !(#[trigger] reading_laws::is_cut(kept, '|', parts)
                && #[trigger] reading_laws::reads_message(parts, held)),
{
    match read {
        Ok(held) => {
            reading_laws::lemma_line_reading(line@, kept, held@);
        },
        Err(_) => {
            assert forall|parts: Seq<Seq<char>>, held: message::MessageView|
                !(#[trigger] reading_laws::is_cut(kept, '|', parts)
                    && #[trigger] reading_laws::reads_message(parts, held)) by {
                reading_laws::lemma_line_reading(line@, kept, held);
            }
        },
    }
}

/// A node reads an enveloped line exactly where it has the node's own envelope before the fields of
/// a message.
pub proof fn lemma_decode_network_call(
    line: &str,
    kept: Seq<char>,
    wire: WireConfig,
    read: Result<PeerMessage, String>,
)
    requires
        reading_laws::is_trimmed(line@, kept),
        call_ensures(envelope::decode_network_message, (line, &wire), read),
    ensures
        read matches Ok(held) ==> exists|parts: Seq<Seq<char>>| #[trigger]
            reading_laws::is_cut(kept, '|', parts) && reading_laws::is_own_envelope(parts, wire@)
                && reading_laws::reads_message(parts.skip(4), held@),
        read is Err ==> forall|parts: Seq<Seq<char>>, held: message::MessageView|
            !(#[trigger] reading_laws::is_cut(kept, '|', parts) && reading_laws::is_own_envelope(
                parts,
                wire@,
            ) && #[trigger] reading_laws::reads_message(parts.skip(4), held)),
{
    match read {
        Ok(held) => {
            reading_laws::lemma_network_line_reading(line@, kept, wire@, held@);
        },
        Err(_) => {
            assert forall|parts: Seq<Seq<char>>, held: message::MessageView|
                !(#[trigger] reading_laws::is_cut(kept, '|', parts)
                    && reading_laws::is_own_envelope(parts, wire@)
                    && #[trigger] reading_laws::reads_message(parts.skip(4), held)) by {
                reading_laws::lemma_network_line_reading(line@, kept, wire@, held);
            }
        },
    }
}

/// A record is written with the checksum of its block, and a stored line reads as a block exactly
/// where it is one, bare or in a record with the right checksum.
pub proof fn lemma_record_calls(
    block: Block,
    record: String,
    line: &str,
    kept: Seq<char>,
    read: Result<Block, String>,
) -> (written: (Seq<Seq<char>>, Seq<Seq<char>>))
    requires
        reading_laws::is_trimmed(line@, kept),
        call_ensures(storage::encode_record, (&block,), record),
        call_ensures(storage::decode_record, (line,), read),
    ensures
        writing_laws::writes_block(written.1, block@),
        format_laws::writes_front(written.0, text_laws::strung(written.1, seq!['|'])),
        record@ == text_laws::strung(written.0 + written.1, seq!['|']),
        read matches Ok(held) ==> exists|parts: Seq<Seq<char>>| #[trigger]
            reading_laws::is_cut(kept, '|', parts) && format_laws::reads_stored(parts, held@),
{
    if read is Ok {
        format_laws::lemma_stored_reading(line@, kept, read->Ok_0@);
    }
    format_laws::lemma_record_writing(block@)
}

/// A log is repaired by ending its last record, or by cutting it behind its last line end.
pub proof fn lemma_repair_call(log: &str, tail: LogTail, whole: String)
    requires
        call_ensures(storage::repaired, (log, tail), whole),
    ensures
        tail is Unterminated ==> whole@ == log@.push('\n'),
        !(tail is Unterminated) ==> {
            &&& whole@.len() <= log@.len()
            &&& whole@ == log@.take(whole@.len() as int)
            &&& whole@.len() > 0 ==> whole@[whole@.len() - 1] == '\n'
            &&& forall|i: int| whole@.len() <= i < log@.len() ==> #[trigger] log@[i] != '\n'
        },
{
    format_laws::lemma_repair_is_exact(log@, tail);
}

/// A log whose complete lines all lead on is loaded as the last of their states.
pub proof fn lemma_load_call(
    config: ChainConfig,
    log: &str,
    lines: Seq<Seq<char>>,
    states: Seq<ForkView>,
    loaded: Result<(ForkChoiceState, LogTail), StorageError>,
)
    requires
        reading_laws::is_cut(log@, '\n', lines),
        format_laws::is_load(config, lines, states),
        states.len() == lines.len(),
        call_ensures(storage::load_chain, (config, log), loaded),
    ensures
        loaded is Ok,
        format_laws::is_white_line(lines[lines.len() - 1]) ==> loaded->Ok_0.0@
            == states[states.len() - 1] && loaded->Ok_0.1 is Clean,
{
    format_laws::lemma_load_follows_lines(
        config,
        log@,
        lines,
        states,
        fork_choice::nothing_known(config),
    );
}

/// The fingerprint of a chain is the toy hash of the bytes that tell its parameters.
pub proof fn lemma_fingerprint_call(config: ChainConfig, bytes: Seq<u8>, fingerprint: Digest)
    requires
        writing_laws::tells_parameters(bytes, config),
        call_ensures(envelope::chain_fingerprint, (&config,), fingerprint),
    ensures
        fingerprint == ToyHash.spec_digest(bytes),
{
    writing_laws::lemma_fingerprint_covers_parameters(config, bytes);
}

/// A text is escaped character by character, and read back byte by byte.
pub proof fn lemma_escape_calls(
    held: &str,
    out: String,
    field: &[char],
    read: Result<String, String>,
)
    requires
        call_ensures(fields::escape, (held,), out),
        call_ensures(fields::unescape, (field,), read),
    ensures
        writing_laws::wraps(out@, held@),
        read matches Ok(found) ==> reading_laws::reads_text(field@, found@),
{
    writing_laws::lemma_escape_writing(held@);
    if read is Ok {
        reading_laws::lemma_text_reading(field@, read->Ok_0@);
    }
}

/// The first line of bytes is read where it is short enough and a text.
pub proof fn lemma_read_call(
    input: &[u8],
    max_bytes: usize,
    line: Seq<u8>,
    read: Result<Option<String>, IncomingReadError>,
)
    requires
        setup_laws::is_first_line(input@, line),
        call_ensures(reader::read_limited_line_from, (input, max_bytes), read),
    ensures
        line.len() > max_bytes ==> (read matches Err(error) && error is Oversized),
        line.len() <= max_bytes && input@.len() == 0 ==> (read matches Ok(found) && found
            is None),
        line.len() <= max_bytes && input@.len() > 0 && vstd::utf8::valid_utf8(line)
            ==> (read matches Ok(Some(found)) && found@ == vstd::utf8::decode_utf8(line)),
        line.len() <= max_bytes && input@.len() > 0 && !vstd::utf8::valid_utf8(line)
            ==> (read matches Err(error) && error is Io),
{
    setup_laws::lemma_reading_is_exact(input@, max_bytes, line);
}

/// What a node prints from time to time and at the end reads back as its snapshot.
pub proof fn lemma_status_calls(
    snapshot: NodeSnapshot,
    line: String,
    lines: Vec<String>,
) -> (values: Seq<Seq<char>>)
    requires
        call_ensures(report::status_line, (&snapshot,), line),
        call_ensures(report::final_lines, (&snapshot,), lines),
    ensures
        line@ == report_laws::alternate(report_laws::status_labels(), values),
        values.len() == 4,
        text_laws::is_written(values[0], snapshot.height as int),
        text_laws::is_written(values[1], snapshot.accepted_blocks as int),
        text_laws::is_written(values[2], snapshot.rejected_blocks as int),
        text_laws::is_hex_of(values[3], snapshot.head@),
        lines@.len() == 11,
        simulate_laws::tells_number(
            lines@[0]@,
            "final height         "@,
            snapshot.height as int,
        ),
        simulate_laws::tells_number(
            lines@[1]@,
            "mined blocks         "@,
            snapshot.mined_blocks as int,
        ),
        simulate_laws::tells_hex(lines@[10]@, "head                 "@, snapshot.head@),
{
    report_laws::lemma_final_lines_are_told(snapshot);
    let views: Seq<Seq<char>> = text::string_views(lines@);
    assert(views[0] == lines@[0]@ && views[1] == lines@[1]@ && views[10] == lines@[10]@);
    report_laws::lemma_status_is_told(snapshot)
}

/// The line about the network reads back as its name, version, fingerprint and limits.
pub proof fn lemma_network_line_call(network: NetworkConfig, line: String) -> (values: Seq<
    Seq<char>,
>)
    requires
        call_ensures(report::network_line, (&network,), line),
    ensures
        line@ == report_laws::alternate(report_laws::network_labels(), values),
        values.len() == 6,
        values[0] == network.wire.network_id@,
        text_laws::is_written(values[1], network.wire.protocol_version as int),
        text_laws::is_hex_of(values[2], network.wire.chain_fingerprint@),
        text_laws::is_written(values[3], network.max_message_bytes as int),
        text_laws::is_written(values[4], network.max_peers as int),
        text_laws::is_written(values[5], network.max_inbound_connections as int),
{
    report_laws::lemma_network_is_told(network@)
}

/// Settings are refused exactly where they have a fault, and a node starts only with settings that
/// have none.
pub proof fn lemma_settings_calls(
    settings: NodeConfig,
    checked: Result<(), String>,
    bound_addr: PeerAddr,
    log: Option<&str>,
    started: Result<(NodeState, LogTail), StartError>,
)
    requires
        call_ensures(NodeConfig::validate, (&settings,), checked),
        call_ensures(NodeState::start, (&settings, bound_addr, log), started),
    ensures
        checked is Ok <==> settings.chain.difficulty_zero_bits <= 256
            && settings.network.write_timeout_ms > 0 && settings.network.max_inbound_connections
            > 0 && !(setup_laws::names_no_host(settings.listen_addr) && settings.advertise_addr
            is None),
        started is Ok ==> checked is Ok,
        match started {
            Ok((held, tail)) => state::spec_start(settings@, bound_addr, state::log_view(log))
                == Ok::<(NodeView, LogTail), StartErrorView>((held@, tail)),
            Err(error) => state::spec_start(settings@, bound_addr, state::log_view(log)) == Err::<
                (NodeView, LogTail),
                StartErrorView,
            >(error@),
        },
{
    setup_laws::lemma_config_fault_is_exact(settings@);
    let fresh: NodeView = setup_laws::lemma_start_is_exact(
        settings@,
        bound_addr,
        state::log_view(log),
    );
}

/// Which command is meant, told from the first word.
pub proof fn lemma_select_call(args: &[String], selected: Result<Selected, String>)
    requires
        call_ensures(command::select_command, (args,), selected),
    ensures
        args@.len() == 0 ==> (selected matches Ok(chosen) && chosen == (Selected::Simulate {
            skip: 0,
        })),
        args@.len() > 0 && args@[0]@ == "simulate"@ ==> (selected matches Ok(chosen)
            && chosen == (Selected::Simulate { skip: 1 })),
        args@.len() > 0 && args@[0]@ == "node"@ ==> (selected matches Ok(chosen)
            && chosen == (Selected::Node { skip: 1 })),
        args@.len() > 0 && (report_laws::asks_for_help(args@[0]@) || args@[0]@ == "help"@)
            ==> (selected matches Ok(chosen) && chosen is Help),
{
    let views: Seq<Seq<char>> = text::string_views(args@);
    report_laws::lemma_selection_is_exact(views);
    if args@.len() > 0 {
        assert(views[0] == args@[0]@);
    }
}

/// A simulation and a node are asked for as their words say.
pub proof fn lemma_request_calls(
    words: &[String],
    prepared: Result<ParsedSimulation, String>,
    entries: &[ConfigEntry],
    args: &[Argument],
    asked: Result<ParsedNode, String>,
)
    requires
        call_ensures(simulate::prepare_simulation, (words,), prepared),
        call_ensures(node::parse_node_request, (entries, args), asked),
    ensures
        prepared matches Ok(ParsedSimulation::Run(request)) ==> {
            &&& simulate::options_from(
                simulate::default_request(),
                text::string_views(words@),
            ) == Ok::<ParsedSimulation, Seq<char>>(ParsedSimulation::Run(request))
            &&& request.samples > 0
            &&& request.tamper_step matches Some(step) ==> step < request.steps
        },
        asked matches Ok(ParsedNode::Run(request)) ==> {
            &&& request.config.chain.samples_per_block <= request.config.chain.steps_per_block
            &&& request.config.miner is Some <==> request.mine
            &&& request.config.miner matches Some(miner) ==> miner.interval_ms
                == request.mine_interval_ms
        },
{
    report_laws::lemma_prepared_is_exact(text::string_views(words@));
    option_laws::lemma_request_is_exact(
        node::entry_views(entries@),
        node::argument_views(args@),
    );
}

} // verus!
