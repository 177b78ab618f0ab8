//! How messages are written, told from their characters.

use vstd::prelude::*;

use crate::adapters::ToyHash;
use crate::application::ChainConfig;
use crate::bits;
use crate::domain::block::BlockView;
use crate::domain::digest;
use crate::domain::layout_laws;
use crate::domain::model;
use crate::domain::{BlockHeader, Digest, ModelState, TraceEntry};
use crate::ports::HashPort;
use crate::text;
use crate::text_laws;
use crate::wire::envelope;
use crate::wire::envelope::WireView;
use crate::wire::fields;
use crate::wire::laws;
use crate::wire::message;
use crate::wire::message::MessageView;
use crate::word_laws;

verus! {

/// The texts of eight weights.
pub open spec fn writes_weights(pieces: Seq<Seq<char>>, held: ModelState) -> bool {
    &&& pieces.len() == 8
    &&& forall|i: int|
        0 <= i < 8 ==> text_laws::is_written(#[trigger] pieces[i], held@[i] as int)
}

/// The texts of eight weights, with an underscore between neighbours.
pub open spec fn writes_model(field: Seq<char>, held: ModelState) -> bool {
    exists|pieces: Seq<Seq<char>>| #[trigger]
        writes_weights(pieces, held) && text_laws::strung(pieces, seq!['_']) == field
}

/// The texts of the ten fields of an entry.
pub open spec fn writes_entry_fields(pieces: Seq<Seq<char>>, entry: TraceEntry) -> bool {
    &&& pieces.len() == 10
    &&& text_laws::is_hex_of(pieces[0], entry.previous_commitment@)
    &&& text_laws::is_hex_of(pieces[1], entry.commitment@)
    &&& text_laws::is_written(pieces[2], entry.step.index as int)
    &&& text_laws::is_written(pieces[3], entry.step.seed as int)
    &&& text_laws::is_written(pieces[4], entry.step.batch_id as int)
    &&& text_laws::is_written(pieces[5], entry.step.weight_index as int)
    &&& text_laws::is_written(pieces[6], entry.step.gradient as int)
    &&& text_laws::is_written(pieces[7], entry.step.learning_rate_ppm as int)
    &&& writes_model(pieces[8], entry.step.state_before)
    &&& writes_model(pieces[9], entry.step.state_after)
}

/// The texts of ten fields, with a comma between neighbours.
pub open spec fn writes_entry(field: Seq<char>, entry: TraceEntry) -> bool {
    exists|pieces: Seq<Seq<char>>| #[trigger]
        writes_entry_fields(pieces, entry) && text_laws::strung(pieces, seq![',']) == field
}

/// One entry a piece.
pub open spec fn writes_each_entry(pieces: Seq<Seq<char>>, entries: Seq<TraceEntry>) -> bool {
    &&& pieces.len() == entries.len()
    &&& forall|i: int| 0 <= i < pieces.len() ==> writes_entry(#[trigger] pieces[i], entries[i])
}

/// Entries, with a semicolon between neighbours.
pub open spec fn writes_entries(field: Seq<char>, entries: Seq<TraceEntry>) -> bool {
    exists|pieces: Seq<Seq<char>>| #[trigger]
        writes_each_entry(pieces, entries) && text_laws::strung(pieces, seq![';']) == field
}

/// One digest a piece.
pub open spec fn writes_each_digest(pieces: Seq<Seq<char>>, hashes: Seq<Digest>) -> bool {
    &&& pieces.len() == hashes.len()
    &&& forall|i: int|
        0 <= i < pieces.len() ==> text_laws::is_hex_of(#[trigger] pieces[i], hashes[i]@)
}

/// Digests, with a comma between neighbours.
pub open spec fn writes_digests(field: Seq<char>, hashes: Seq<Digest>) -> bool {
    exists|pieces: Seq<Seq<char>>| #[trigger]
        writes_each_digest(pieces, hashes) && text_laws::strung(pieces, seq![',']) == field
}

/// A text with every percent sign as `%25` and every bar as `%7C`, and every other character as it
/// is.
pub open spec fn wraps(field: Seq<char>, held: Seq<char>) -> bool
    decreases held.len(),
{
    if held.len() == 0 {
        field.len() == 0
    } else if held[0] == '%' {
        &&& field.len() >= 3
        &&& field.take(3) == seq!['%', '2', '5']
        &&& wraps(field.skip(3), held.skip(1))
    } else if held[0] == '|' {
        &&& field.len() >= 3
        &&& field.take(3) == seq!['%', '7', 'C']
        &&& wraps(field.skip(3), held.skip(1))
    } else {
        &&& field.len() >= 1
        &&& field[0] == held[0]
        &&& wraps(field.skip(1), held.skip(1))
    }
}

/// The texts of a block: its header, the ends and the root of its trace, and its entries.
pub open spec fn writes_block(parts: Seq<Seq<char>>, block: BlockView) -> bool {
    let header: BlockHeader = block.header;
    &&& parts.len() == 14
    &&& parts[0] == "BLOCK"@
    &&& text_laws::is_written(parts[1], header.height as int)
    &&& text_laws::is_hex_of(parts[2], header.previous_block@)
    &&& writes_model(parts[3], header.model_before)
    &&& writes_model(parts[4], header.model_after)
    &&& text_laws::is_hex_of(parts[5], header.trace_root@)
    &&& text_laws::is_written(parts[6], header.training_seed as int)
    &&& text_laws::is_written(parts[7], header.sampling_entropy as int)
    &&& text_laws::is_written(parts[8], header.sample_count as int)
    &&& text_laws::is_written(parts[9], header.nonce as int)
    &&& writes_model(parts[10], block.trace.initial_model)
    &&& writes_model(parts[11], block.trace.candidate_model)
    &&& text_laws::is_hex_of(parts[12], block.trace.root@)
    &&& writes_entries(parts[13], block.trace.entries)
}

/// The texts of the fields of a message of each kind.
pub open spec fn writes_message(parts: Seq<Seq<char>>, held: MessageView) -> bool {
    match held {
        MessageView::Hello { node_id, height, head } => {
            &&& parts.len() == 4
            &&& parts[0] == "HELLO"@
            &&& wraps(parts[1], node_id)
            &&& text_laws::is_written(parts[2], height as int)
            &&& text_laws::is_hex_of(parts[3], head@)
        },
        MessageView::Block(block) => writes_block(parts, block),
        MessageView::GetBlocks { from_height, limit } => {
            &&& parts.len() == 3
            &&& parts[0] == "GETBLOCKS"@
            &&& text_laws::is_written(parts[1], from_height as int)
            &&& text_laws::is_written(parts[2], limit as int)
        },
        MessageView::Locate { hashes, limit } => {
            &&& parts.len() == 3
            &&& parts[0] == "LOCATE"@
            &&& text_laws::is_written(parts[1], limit as int)
            &&& writes_digests(parts[2], hashes)
        },
        MessageView::EndBlocks => parts.len() == 1 && parts[0] == "ENDBLOCKS"@,
        MessageView::Peer { addr } => {
            &&& parts.len() == 2
            &&& parts[0] == "PEER"@
            &&& wraps(parts[1], addr)
        },
    }
}

/// A model is written as its eight weights.
pub proof fn lemma_model_writing(held: ModelState)
    ensures
        writes_model(fields::model_text(held), held),
{
    broadcast use model::lemma_model_len;

    let pieces: Seq<Seq<char>> = model::weight_texts(held@);
    assert forall|i: int| 0 <= i < 8 implies text_laws::is_written(
        #[trigger] pieces[i],
        held@[i] as int,
    ) by {
        text_laws::lemma_number_is_written(held@[i] as int);
    }
    reveal_strlit("_");
    assert("_"@ =~= seq!['_']);
    text_laws::lemma_join_strings_parts(pieces, "_"@);
    assert(writes_weights(pieces, held));
}

/// An entry is written as its ten fields.
pub proof fn lemma_entry_writing(entry: TraceEntry)
    ensures
        writes_entry(fields::entry_text(entry), entry),
{
    let pieces: Seq<Seq<char>> = fields::entry_parts(entry);
    text_laws::lemma_hex_shows_bytes(entry.previous_commitment@);
    text_laws::lemma_hex_shows_bytes(entry.commitment@);
    text_laws::lemma_number_is_written(entry.step.index as int);
    text_laws::lemma_number_is_written(entry.step.seed as int);
    text_laws::lemma_number_is_written(entry.step.batch_id as int);
    text_laws::lemma_number_is_written(entry.step.weight_index as int);
    text_laws::lemma_number_is_written(entry.step.gradient as int);
    text_laws::lemma_number_is_written(entry.step.learning_rate_ppm as int);
    lemma_model_writing(entry.step.state_before);
    lemma_model_writing(entry.step.state_after);
    reveal_strlit(",");
    assert(","@ =~= seq![',']);
    text_laws::lemma_join_strings_parts(pieces, ","@);
    assert(writes_entry_fields(pieces, entry));
}

/// The entries of a trace are written one after the other.
pub proof fn lemma_entries_writing(entries: Seq<TraceEntry>)
    ensures
        writes_entries(fields::entries_text(entries), entries),
{
    let pieces: Seq<Seq<char>> = fields::entry_texts(entries);
    assert forall|i: int| 0 <= i < pieces.len() implies writes_entry(
        #[trigger] pieces[i],
        entries[i],
    ) by {
        lemma_entry_writing(entries[i]);
    }
    reveal_strlit(";");
    assert(";"@ =~= seq![';']);
    text_laws::lemma_join_strings_parts(pieces, ";"@);
    assert(writes_each_entry(pieces, entries));
}

/// Digests are written one after the other.
pub proof fn lemma_digests_writing(hashes: Seq<Digest>)
    ensures
        writes_digests(text::join(message::hash_texts(hashes), ","@), hashes),
{
    let pieces: Seq<Seq<char>> = message::hash_texts(hashes);
    assert forall|i: int| 0 <= i < pieces.len() implies text_laws::is_hex_of(
        #[trigger] pieces[i],
        hashes[i]@,
    ) by {
        text_laws::lemma_hex_shows_bytes(hashes[i]@);
    }
    reveal_strlit(",");
    assert(","@ =~= seq![',']);
    text_laws::lemma_join_strings_parts(pieces, ","@);
    assert(writes_each_digest(pieces, hashes));
}

/// A text is escaped character by character.
pub proof fn lemma_escape_writing(held: Seq<char>)
    ensures
        wraps(fields::escaped(held), held),
    decreases held.len(),
{
    if held.len() > 0 {
        let rest: Seq<char> = held.skip(1);
        let first: Seq<char> = fields::escaped_char(held[0]);
        let field: Seq<char> = fields::escaped(held);
        lemma_escape_writing(rest);
        laws::lemma_escaped_first(held);
        assert(field.take(first.len() as int) =~= first);
        assert(field.skip(first.len() as int) =~= fields::escaped(rest));
    }
}

/// The fields of a block are written in their order.
pub proof fn lemma_block_writing(block: BlockView)
    ensures
        writes_block(message::block_parts(block), block),
{
    let header: BlockHeader = block.header;
    text_laws::lemma_number_is_written(header.height as int);
    text_laws::lemma_hex_shows_bytes(header.previous_block@);
    lemma_model_writing(header.model_before);
    lemma_model_writing(header.model_after);
    text_laws::lemma_hex_shows_bytes(header.trace_root@);
    text_laws::lemma_number_is_written(header.training_seed as int);
    text_laws::lemma_number_is_written(header.sampling_entropy as int);
    text_laws::lemma_number_is_written(header.sample_count as int);
    text_laws::lemma_number_is_written(header.nonce as int);
    lemma_model_writing(block.trace.initial_model);
    lemma_model_writing(block.trace.candidate_model);
    text_laws::lemma_hex_shows_bytes(block.trace.root@);
    lemma_entries_writing(block.trace.entries);
}

proof fn lemma_parts_writing(held: MessageView)
    ensures
        writes_message(message::message_parts(held), held),
        message::message_parts(held).len() > 0,
{
    match held {
        MessageView::Hello { node_id, height, head } => {
            lemma_escape_writing(node_id);
            text_laws::lemma_number_is_written(height as int);
            text_laws::lemma_hex_shows_bytes(head@);
        },
        MessageView::Block(block) => {
            lemma_block_writing(block);
        },
        MessageView::GetBlocks { from_height, limit } => {
            text_laws::lemma_number_is_written(from_height as int);
            text_laws::lemma_number_is_written(limit as int);
        },
        MessageView::Locate { hashes, limit } => {
            text_laws::lemma_number_is_written(limit as int);
            lemma_digests_writing(hashes);
        },
        MessageView::EndBlocks => {},
        MessageView::Peer { addr } => {
            lemma_escape_writing(addr);
        },
    }
}

/// A message is written as the texts of its fields, with a bar between neighbours.
pub proof fn lemma_message_writing(held: MessageView) -> (parts: Seq<Seq<char>>)
    ensures
        writes_message(parts, held),
        message::message_text(held) == text_laws::strung(parts, seq!['|']),
{
    let parts: Seq<Seq<char>> = message::message_parts(held);
    lemma_parts_writing(held);
    reveal_strlit("|");
    assert("|"@ =~= seq!['|']);
    text_laws::lemma_join_strings_parts(parts, "|"@);
    parts
}

/// The texts of the four fields of an envelope.
pub open spec fn writes_envelope(parts: Seq<Seq<char>>, wire: WireView) -> bool {
    &&& parts.len() == 4
    &&& parts[0] == "CHESSCOIN"@
    &&& text_laws::is_written(parts[1], wire.protocol_version as int)
    &&& wraps(parts[2], wire.network_id)
    &&& text_laws::is_hex_of(parts[3], wire.chain_fingerprint@)
}

/// An enveloped message is written as the four fields of the envelope and those of the message,
/// with a bar between neighbours.
pub proof fn lemma_network_writing(wire: WireView, held: MessageView) -> (written: (
    Seq<Seq<char>>,
    Seq<Seq<char>>,
))
    ensures
        writes_envelope(written.0, wire),
        writes_message(written.1, held),
        envelope::network_text(wire, held) == text_laws::strung(
            written.0 + written.1,
            seq!['|'],
        ),
{
    let first: Seq<Seq<char>> = envelope::envelope_parts(wire);
    let parts: Seq<Seq<char>> = message::message_parts(held);
    lemma_parts_writing(held);
    text_laws::lemma_number_is_written(wire.protocol_version as int);
    lemma_escape_writing(wire.network_id);
    text_laws::lemma_hex_shows_bytes(wire.chain_fingerprint@);
    reveal_strlit("|");
    assert("|"@ =~= seq!['|']);
    text_laws::lemma_join_strings_parts(first + parts, "|"@);
    (first, parts)
}

/// Bytes that tell the parameters of a chain: steps, samples and difficulty, eight bytes each
/// behind a tag.
pub open spec fn tells_parameters(bytes: Seq<u8>, config: ChainConfig) -> bool {
    &&& bytes.len() == 49
    &&& layout_laws::begins_with(bytes, "chesscoin.chain-params.v1"@)
    &&& word_laws::number_at(bytes, 25) == config.steps_per_block
    &&& word_laws::number_at(bytes, 33) == config.samples_per_block
    &&& word_laws::number_at(bytes, 41) == config.difficulty_zero_bits
}

/// The fingerprint of a chain is the toy hash of the bytes that tell its parameters.
pub proof fn lemma_fingerprint_covers_parameters(config: ChainConfig, bytes: Seq<u8>)
    requires
        tells_parameters(bytes, config),
    ensures
        envelope::spec_fingerprint(config) == ToyHash.spec_digest(bytes),
{
    reveal_strlit("chesscoin.chain-params.v1");
    layout_laws::lemma_tag(bytes, "chesscoin.chain-params.v1"@);
    layout_laws::lemma_word_part(bytes, 25, config.steps_per_block as u64);
    layout_laws::lemma_word_part(bytes, 33, config.samples_per_block as u64);
    layout_laws::lemma_word_part(bytes, 41, config.difficulty_zero_bits as u64);
    assert(bytes.subrange(0, 49) =~= bytes);
    assert(envelope::fingerprint_bytes(config) == bytes);
}

/// There are bytes that tell the parameters of a given chain.
pub proof fn lemma_parameters_can_be_told(config: ChainConfig) -> (bytes: Seq<u8>)
    ensures
        tells_parameters(bytes, config),
{
    let bytes: Seq<u8> = envelope::fingerprint_bytes(config);
    reveal_strlit("chesscoin.chain-params.v1");
    vstd::utf8::is_ascii_chars_encode_utf8("chesscoin.chain-params.v1"@);
    assert(bytes.subrange(0, 25) =~= vstd::utf8::encode_utf8("chesscoin.chain-params.v1"@));
    layout_laws::lemma_spells_tag(bytes, "chesscoin.chain-params.v1"@);
    assert(bytes.subrange(25, 33) =~= bits::le_bytes(config.steps_per_block as u64));
    layout_laws::lemma_word_reads_back(bytes, 25, config.steps_per_block as u64);
    assert(bytes.subrange(33, 41) =~= bits::le_bytes(config.samples_per_block as u64));
    layout_laws::lemma_word_reads_back(bytes, 33, config.samples_per_block as u64);
    assert(bytes.subrange(41, 49) =~= bits::le_bytes(config.difficulty_zero_bits as u64));
    layout_laws::lemma_word_reads_back(bytes, 41, config.difficulty_zero_bits as u64);
    bytes
}

} // verus!
