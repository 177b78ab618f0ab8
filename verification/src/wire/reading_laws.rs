//! Which messages a line reads as, told from its characters.

use vstd::prelude::*;

use crate::domain::block::BlockView;
use crate::domain::digest;
use crate::domain::model;
use crate::domain::{BlockHeader, Digest, ModelState, TraceEntry};
use crate::text;
use crate::text_laws;
use crate::wire::envelope;
use crate::wire::envelope::WireView;
use crate::wire::fields;
use crate::wire::laws;
use crate::wire::message;
use crate::wire::message::MessageView;

verus! {

/// The text is cut into these pieces by the separator.
pub open spec fn is_cut(field: Seq<char>, separator: char, pieces: Seq<Seq<char>>) -> bool {
    &&& pieces.len() > 0
    &&& forall|i: int| 0 <= i < pieces.len() ==> !(#[trigger] pieces[i]).contains(separator)
    &&& text_laws::strung(pieces, seq![separator]) == field
}

/// Digits of an unsigned number within a bound, behind at most one plus sign.
pub open spec fn reads_number(field: Seq<char>, max: int, value: int) -> bool {
    let digits: Seq<char> = if field.len() > 0 && field[0] == '+' {
        field.skip(1)
    } else {
        field
    };
    text_laws::all_decimal(digits) && text_laws::numeral(digits) == value && value <= max
}

/// Digits of a 64-bit number, behind at most one sign.
pub open spec fn reads_signed(field: Seq<char>, value: int) -> bool {
    if field.len() > 0 && field[0] == '-' {
        text_laws::all_decimal(field.skip(1)) && text_laws::numeral(field.skip(1)) == -value
            && value >= i64::MIN
    } else {
        reads_number(field, i64::MAX as int, value)
    }
}

/// The 64 hexadecimal digits of a digest.
pub open spec fn reads_digest(field: Seq<char>, held: Digest) -> bool {
    text_laws::spells_digest(vstd::utf8::encode_utf8(field), held)
}

/// The eight weights of a model.
pub open spec fn reads_weights(pieces: Seq<Seq<char>>, held: ModelState) -> bool {
    &&& pieces.len() == 8
    &&& forall|i: int| 0 <= i < 8 ==> reads_signed(#[trigger] pieces[i], held@[i] as int)
}

/// Eight weights, with an underscore between neighbours.
pub open spec fn reads_model(field: Seq<char>, held: ModelState) -> bool {
    exists|pieces: Seq<Seq<char>>| #[trigger]
        is_cut(field, '_', pieces) && reads_weights(pieces, held)
}

/// The ten fields of a trace entry.
pub open spec fn reads_entry_fields(pieces: Seq<Seq<char>>, entry: TraceEntry) -> bool {
    &&& pieces.len() == 10
    &&& reads_digest(pieces[0], entry.previous_commitment)
    &&& reads_digest(pieces[1], entry.commitment)
    &&& reads_number(pieces[2], u64::MAX as int, entry.step.index as int)
    &&& reads_number(pieces[3], u64::MAX as int, entry.step.seed as int)
    &&& reads_number(pieces[4], u64::MAX as int, entry.step.batch_id as int)
    &&& reads_number(pieces[5], usize::MAX as int, entry.step.weight_index as int)
    &&& reads_signed(pieces[6], entry.step.gradient as int)
    &&& reads_signed(pieces[7], entry.step.learning_rate_ppm as int)
    &&& reads_model(pieces[8], entry.step.state_before)
    &&& reads_model(pieces[9], entry.step.state_after)
}

/// Ten fields, with a comma between neighbours.
pub open spec fn reads_entry(field: Seq<char>, entry: TraceEntry) -> bool {
    exists|pieces: Seq<Seq<char>>| #[trigger]
        is_cut(field, ',', pieces) && reads_entry_fields(pieces, entry)
}

/// One entry a piece.
pub open spec fn reads_each_entry(pieces: Seq<Seq<char>>, entries: Seq<TraceEntry>) -> bool {
    &&& pieces.len() == entries.len()
    &&& forall|i: int| 0 <= i < pieces.len() ==> reads_entry(#[trigger] pieces[i], entries[i])
}

/// Entries, with a semicolon between neighbours; none in an empty text.
pub open spec fn reads_entries(field: Seq<char>, entries: Seq<TraceEntry>) -> bool {
    if field.len() == 0 {
        entries.len() == 0
    } else {
        exists|pieces: Seq<Seq<char>>| #[trigger]
            is_cut(field, ';', pieces) && reads_each_entry(pieces, entries)
    }
}

/// One digest a piece.
pub open spec fn reads_each_digest(pieces: Seq<Seq<char>>, hashes: Seq<Digest>) -> bool {
    &&& pieces.len() == hashes.len()
    &&& forall|i: int| 0 <= i < pieces.len() ==> reads_digest(#[trigger] pieces[i], hashes[i])
}

/// Digests, with a comma between neighbours; none in an empty text.
pub open spec fn reads_digests(field: Seq<char>, hashes: Seq<Digest>) -> bool {
    if field.len() == 0 {
        hashes.len() == 0
    } else {
        exists|pieces: Seq<Seq<char>>| #[trigger]
            is_cut(field, ',', pieces) && reads_each_digest(pieces, hashes)
    }
}

/// Bytes that stand for characters: each for itself, and a percent sign with the two behind it for
/// one of that code, two digits or one behind a plus sign.
pub open spec fn unwraps(bytes: Seq<u8>, chars: Seq<char>) -> bool
    decreases bytes.len(),
{
    if bytes.len() == 0 {
        chars.len() == 0
    } else if bytes[0] != 37 {
        &&& chars.len() > 0
        &&& chars[0] as int == bytes[0]
        &&& unwraps(bytes.skip(1), chars.skip(1))
    } else {
        let high: int = text_laws::nibble(bytes[1] as int);
        let low: int = text_laws::nibble(bytes[2] as int);
        &&& bytes.len() >= 3
        &&& chars.len() > 0
        &&& low >= 0
        &&& high >= 0 && chars[0] as int == 16 * high + low || bytes[1] == 43 && chars[0] as int
            == low
        &&& unwraps(bytes.skip(3), chars.skip(1))
    }
}

/// A text behind escapes.
pub open spec fn reads_text(field: Seq<char>, held: Seq<char>) -> bool {
    unwraps(vstd::utf8::encode_utf8(field), held)
}

/// The fields of a header, in the order of the header.
pub open spec fn reads_header(parts: Seq<Seq<char>>, header: BlockHeader) -> bool {
    &&& reads_number(parts[1], u64::MAX as int, header.height as int)
    &&& reads_digest(parts[2], header.previous_block)
    &&& reads_model(parts[3], header.model_before)
    &&& reads_model(parts[4], header.model_after)
    &&& reads_digest(parts[5], header.trace_root)
    &&& reads_number(parts[6], u64::MAX as int, header.training_seed as int)
    &&& reads_number(parts[7], u64::MAX as int, header.sampling_entropy as int)
    &&& reads_number(parts[8], usize::MAX as int, header.sample_count as int)
    &&& reads_number(parts[9], u64::MAX as int, header.nonce as int)
}

/// The fields of a block: its header, the ends and the root of its trace, and its entries.
pub open spec fn reads_block(parts: Seq<Seq<char>>, block: BlockView) -> bool {
    &&& parts.len() == 14
    &&& parts[0] == "BLOCK"@
    &&& reads_header(parts, block.header)
    &&& reads_model(parts[10], block.trace.initial_model)
    &&& reads_model(parts[11], block.trace.candidate_model)
    &&& reads_digest(parts[12], block.trace.root)
    &&& reads_entries(parts[13], block.trace.entries)
}

/// The fields of a message of each kind.
pub open spec fn reads_message(parts: Seq<Seq<char>>, held: MessageView) -> bool {
    match held {
        MessageView::Hello { node_id, height, head } => {
            &&& parts.len() == 4
            &&& parts[0] == "HELLO"@
            &&& reads_text(parts[1], node_id)
            &&& reads_number(parts[2], u64::MAX as int, height as int)
            &&& reads_digest(parts[3], head)
        },
        MessageView::Block(block) => reads_block(parts, block),
        MessageView::GetBlocks { from_height, limit } => {
            &&& parts.len() == 3
            &&& parts[0] == "GETBLOCKS"@
            &&& reads_number(parts[1], u64::MAX as int, from_height as int)
            &&& reads_number(parts[2], usize::MAX as int, limit as int)
        },
        MessageView::Locate { hashes, limit } => {
            &&& parts.len() == 3
            &&& parts[0] == "LOCATE"@
            &&& reads_number(parts[1], usize::MAX as int, limit as int)
            &&& reads_digests(parts[2], hashes)
        },
        MessageView::EndBlocks => parts.len() == 1 && parts[0] == "ENDBLOCKS"@,
        MessageView::Peer { addr } => {
            &&& parts.len() == 2
            &&& parts[0] == "PEER"@
            &&& reads_text(parts[1], addr)
        },
    }
}

/// Cutting a text at a separator is what splitting does.
pub proof fn lemma_cut_is_split(field: Seq<char>, separator: char, pieces: Seq<Seq<char>>)
    ensures
        is_cut(field, separator, pieces) <==> text::split(field, separator) == pieces,
{
    text_laws::lemma_split_is_exact(field, separator, pieces);
}

/// A number is read exactly where its digits say it.
pub proof fn lemma_number_reading(field: Seq<char>, max: nat, name: Seq<char>, value: nat)
    ensures
        fields::unsigned_field(field, max, name) == Ok::<nat, Seq<char>>(value) <==> reads_number(
            field,
            max as int,
            value as int,
        ),
        fields::unsigned_field(field, max, name) matches Err(complaint) ==> complaint
            == "invalid "@ + name + ": '"@ + field + "'"@,
{
    text_laws::lemma_unsigned_reading_is_exact(field, max, value);
}

/// A signed number is read exactly where its sign and digits say it.
pub proof fn lemma_signed_reading(field: Seq<char>, name: Seq<char>, value: int)
    ensures
        fields::signed_field(field, name) == Ok::<int, Seq<char>>(value) <==> reads_signed(
            field,
            value,
        ),
        fields::signed_field(field, name) matches Err(complaint) ==> complaint == "invalid "@
            + name + ": '"@ + field + "'"@,
{
    text_laws::lemma_signed_reading_is_exact(field, value);
    if field.len() > 0 && field[0] == '+' {
        text_laws::lemma_unsigned_reading_is_exact(field, i64::MAX as nat, 0);
    }
}

/// A digest is read exactly where its digits spell it.
pub proof fn lemma_digest_reading(field: Seq<char>, held: Digest)
    ensures
        digest::spec_from_hex(field) == Ok::<Digest, Seq<char>>(held) <==> reads_digest(
            field,
            held,
        ),
{
    text_laws::lemma_hex_reading_is_exact(field, held);
}

/// Weights are read one by one.
pub proof fn lemma_weights_reading(pieces: Seq<Seq<char>>, weights: Seq<int>)
    ensures
        fields::read_weights(pieces) == Ok::<Seq<int>, Seq<char>>(weights) <==> pieces.len()
            == weights.len() && forall|i: int|
            0 <= i < pieces.len() ==> reads_signed(#[trigger] pieces[i], weights[i]),
    decreases pieces.len(),
{
    if pieces.len() == 0 {
        if weights.len() == 0 {
            assert(weights =~= Seq::<int>::empty());
        }
    } else {
        let fewer: Seq<Seq<char>> = pieces.drop_last();
        let last: Seq<char> = pieces.last();
        let all_read: bool = pieces.len() == weights.len() && forall|i: int|
            0 <= i < pieces.len() ==> reads_signed(#[trigger] pieces[i], weights[i]);
        if all_read {
            lemma_weights_reading(fewer, weights.drop_last());
            assert forall|i: int| 0 <= i < fewer.len() implies reads_signed(
                #[trigger] fewer[i],
                weights.drop_last()[i],
            ) by {
                assert(fewer[i] == pieces[i]);
            }
            assert(reads_signed(pieces[pieces.len() - 1], weights[pieces.len() - 1]));
            lemma_signed_reading(last, "model weight"@, weights.last());
            assert(weights.drop_last().push(weights.last()) =~= weights);
        }
        if fields::read_weights(pieces) == Ok::<Seq<int>, Seq<char>>(weights) {
            let before: Seq<int> = fields::read_weights(fewer)->Ok_0;
            lemma_weights_reading(fewer, before);
            lemma_signed_reading(last, "model weight"@, weights.last());
            assert(weights == before.push(weights.last()));
            assert forall|i: int| 0 <= i < pieces.len() implies reads_signed(
                #[trigger] pieces[i],
                weights[i],
            ) by {
                if i < fewer.len() {
                    assert(fewer[i] == pieces[i]);
                }
            }
        }
    }
}

/// A model is read exactly where its text is eight weights in a row.
pub proof fn lemma_model_reading(field: Seq<char>, held: ModelState)
    ensures
        fields::model_field(field) == Ok::<ModelState, Seq<char>>(held) <==> reads_model(
            field,
            held,
        ),
{
    broadcast use model::lemma_model_len;

    let pieces: Seq<Seq<char>> = text::split(field, '_');
    lemma_cut_is_split(field, '_', pieces);
    let wanted: Seq<int> = Seq::new(8, |i: int| held@[i] as int);
    lemma_weights_reading(pieces, wanted);
    assert(wanted.map_values(|weight: int| weight as i64) =~= held@);
    ModelState::lemma_of(held@);
    model::lemma_model_ext(ModelState::of(held@), held);
    if reads_model(field, held) {
        let cut: Seq<Seq<char>> = choose|cut: Seq<Seq<char>>| #[trigger]
            is_cut(field, '_', cut) && reads_weights(cut, held);
        lemma_cut_is_split(field, '_', cut);
        assert(fields::read_weights(pieces) == Ok::<Seq<int>, Seq<char>>(wanted));
    }
    if fields::model_field(field) == Ok::<ModelState, Seq<char>>(held) {
        let weights: Seq<int> = fields::read_weights(pieces)->Ok_0;
        lemma_weights_reading(pieces, weights);
        let small: Seq<i64> = weights.map_values(|weight: int| weight as i64);
        ModelState::lemma_of(small);
        assert forall|i: int| 0 <= i < 8 implies reads_signed(
            #[trigger] pieces[i],
            held@[i] as int,
        ) by {
            lemma_signed_fits(pieces[i], weights[i]);
            assert(small[i] == weights[i] as i64);
        }
        assert(reads_weights(pieces, held));
    }
}

proof fn lemma_signed_fits(field: Seq<char>, value: int)
    requires
        reads_signed(field, value),
    ensures
        i64::MIN <= value <= i64::MAX,
{
    text_laws::lemma_numerals_are_natural(field);
    text_laws::lemma_numerals_are_natural(field.skip(1));
}

/// An entry is read exactly where its ten fields say it.
pub proof fn lemma_entry_reading(field: Seq<char>, entry: TraceEntry)
    ensures
        fields::entry_field(field) == Ok::<TraceEntry, Seq<char>>(entry) <==> reads_entry(
            field,
            entry,
        ),
{
    let pieces: Seq<Seq<char>> = text::split(field, ',');
    lemma_cut_is_split(field, ',', pieces);
    assert(reads_entry(field, entry) <==> reads_entry_fields(pieces, entry)) by {
        if reads_entry(field, entry) {
            let cut: Seq<Seq<char>> = choose|cut: Seq<Seq<char>>| #[trigger]
                is_cut(field, ',', cut) && reads_entry_fields(cut, entry);
            lemma_cut_is_split(field, ',', cut);
        }
    }
    lemma_digest_reading(pieces[0], entry.previous_commitment);
    lemma_digest_reading(pieces[1], entry.commitment);
    lemma_number_reading(pieces[2], u64::MAX as nat, "step.index"@, entry.step.index as nat);
    lemma_number_reading(pieces[3], u64::MAX as nat, "step.seed"@, entry.step.seed as nat);
    lemma_number_reading(pieces[4], u64::MAX as nat, "step.batch_id"@, entry.step.batch_id as nat);
    lemma_number_reading(
        pieces[5],
        usize::MAX as nat,
        "step.weight_index"@,
        entry.step.weight_index as nat,
    );
    lemma_signed_reading(pieces[6], "step.gradient"@, entry.step.gradient as int);
    lemma_signed_reading(pieces[7], "step.learning_rate_ppm"@, entry.step.learning_rate_ppm as int);
    lemma_model_reading(pieces[8], entry.step.state_before);
    lemma_model_reading(pieces[9], entry.step.state_after);
    if fields::entry_field(field) == Ok::<TraceEntry, Seq<char>>(entry) {
        lemma_entry_numbers(pieces);
    }
}

/// The numbers of an entry fit their fields.
proof fn lemma_entry_numbers(pieces: Seq<Seq<char>>)
    ensures
        fields::unsigned_field(pieces[2], u64::MAX as nat, "step.index"@) matches Ok(value)
            ==> value <= u64::MAX,
        fields::unsigned_field(pieces[3], u64::MAX as nat, "step.seed"@) matches Ok(value)
            ==> value <= u64::MAX,
        fields::unsigned_field(pieces[4], u64::MAX as nat, "step.batch_id"@) matches Ok(value)
            ==> value <= u64::MAX,
        fields::unsigned_field(pieces[5], usize::MAX as nat, "step.weight_index"@) matches Ok(value)
            ==> value <= usize::MAX,
        fields::signed_field(pieces[6], "step.gradient"@) matches Ok(value) ==> i64::MIN <= value
            <= i64::MAX,
        fields::signed_field(pieces[7], "step.learning_rate_ppm"@) matches Ok(value) ==> i64::MIN
            <= value <= i64::MAX,
{
}

/// Entries are read one by one.
pub proof fn lemma_each_entry_reading(pieces: Seq<Seq<char>>, entries: Seq<TraceEntry>)
    ensures
        fields::read_entries(pieces) == Ok::<Seq<TraceEntry>, Seq<char>>(entries)
            <==> reads_each_entry(pieces, entries),
    decreases pieces.len(),
{
    if pieces.len() == 0 {
        if entries.len() == 0 {
            assert(entries =~= Seq::<TraceEntry>::empty());
        }
    } else {
        let fewer: Seq<Seq<char>> = pieces.drop_last();
        let last: Seq<char> = pieces.last();
        if reads_each_entry(pieces, entries) {
            lemma_each_entry_reading(fewer, entries.drop_last());
            assert forall|i: int| 0 <= i < fewer.len() implies reads_entry(
                #[trigger] fewer[i],
                entries.drop_last()[i],
            ) by {
                assert(fewer[i] == pieces[i]);
            }
            assert(reads_entry(pieces[pieces.len() - 1], entries[pieces.len() - 1]));
            lemma_entry_reading(last, entries.last());
            assert(entries.drop_last().push(entries.last()) =~= entries);
        }
        if fields::read_entries(pieces) == Ok::<Seq<TraceEntry>, Seq<char>>(entries) {
            let before: Seq<TraceEntry> = fields::read_entries(fewer)->Ok_0;
            lemma_each_entry_reading(fewer, before);
            assert(entries == before.push(fields::entry_field(last)->Ok_0));
            lemma_entry_reading(last, entries.last());
            assert forall|i: int| 0 <= i < pieces.len() implies reads_entry(
                #[trigger] pieces[i],
                entries[i],
            ) by {
                if i < fewer.len() {
                    assert(fewer[i] == pieces[i]);
                }
            }
        }
    }
}

/// The entries of a trace are read exactly where their texts stand in a row.
pub proof fn lemma_entries_reading(field: Seq<char>, entries: Seq<TraceEntry>)
    ensures
        fields::entries_field(field) == Ok::<Seq<TraceEntry>, Seq<char>>(entries)
            <==> reads_entries(field, entries),
{
    let pieces: Seq<Seq<char>> = text::split(field, ';');
    lemma_cut_is_split(field, ';', pieces);
    lemma_each_entry_reading(pieces, entries);
    if field.len() == 0 {
        if entries.len() == 0 {
            assert(entries =~= Seq::<TraceEntry>::empty());
        }
    } else if reads_entries(field, entries) {
        let cut: Seq<Seq<char>> = choose|cut: Seq<Seq<char>>| #[trigger]
            is_cut(field, ';', cut) && reads_each_entry(cut, entries);
        lemma_cut_is_split(field, ';', cut);
    }
}

/// Digests are read one by one.
pub proof fn lemma_each_digest_reading(pieces: Seq<Seq<char>>, hashes: Seq<Digest>)
    ensures
        message::read_hashes(pieces) == Ok::<Seq<Digest>, Seq<char>>(hashes) <==> reads_each_digest(
            pieces,
            hashes,
        ),
    decreases pieces.len(),
{
    if pieces.len() == 0 {
        if hashes.len() == 0 {
            assert(hashes =~= Seq::<Digest>::empty());
        }
    } else {
        let fewer: Seq<Seq<char>> = pieces.drop_last();
        let last: Seq<char> = pieces.last();
        if reads_each_digest(pieces, hashes) {
            lemma_each_digest_reading(fewer, hashes.drop_last());
            assert forall|i: int| 0 <= i < fewer.len() implies reads_digest(
                #[trigger] fewer[i],
                hashes.drop_last()[i],
            ) by {
                assert(fewer[i] == pieces[i]);
            }
            assert(reads_digest(pieces[pieces.len() - 1], hashes[pieces.len() - 1]));
            lemma_digest_reading(last, hashes.last());
            assert(hashes.drop_last().push(hashes.last()) =~= hashes);
        }
        if message::read_hashes(pieces) == Ok::<Seq<Digest>, Seq<char>>(hashes) {
            let before: Seq<Digest> = message::read_hashes(fewer)->Ok_0;
            lemma_each_digest_reading(fewer, before);
            assert(hashes == before.push(digest::spec_from_hex(last)->Ok_0));
            lemma_digest_reading(last, hashes.last());
            assert forall|i: int| 0 <= i < pieces.len() implies reads_digest(
                #[trigger] pieces[i],
                hashes[i],
            ) by {
                if i < fewer.len() {
                    assert(fewer[i] == pieces[i]);
                }
            }
        }
    }
}

/// A list of digests is read exactly where their texts stand in a row.
pub proof fn lemma_digests_reading(field: Seq<char>, hashes: Seq<Digest>)
    ensures
        message::hashes_field(field) == Ok::<Seq<Digest>, Seq<char>>(hashes) <==> reads_digests(
            field,
            hashes,
        ),
{
    let pieces: Seq<Seq<char>> = text::split(field, ',');
    lemma_cut_is_split(field, ',', pieces);
    lemma_each_digest_reading(pieces, hashes);
    if field.len() == 0 {
        if hashes.len() == 0 {
            assert(hashes =~= Seq::<Digest>::empty());
        }
    } else if reads_digests(field, hashes) {
        let cut: Seq<Seq<char>> = choose|cut: Seq<Seq<char>>| #[trigger]
            is_cut(field, ',', cut) && reads_each_digest(cut, hashes);
        lemma_cut_is_split(field, ',', cut);
    }
}

proof fn lemma_unwrapping(bytes: Seq<u8>, chars: Seq<char>)
    ensures
        fields::unescaped(bytes) == Ok::<Seq<char>, Seq<char>>(chars) <==> unwraps(bytes, chars),
    decreases bytes.len(),
{
    if bytes.len() == 0 {
        if chars.len() == 0 {
            assert(chars =~= Seq::<char>::empty());
        }
    } else {
        let width: int = if bytes[0] != 37 {
            1
        } else {
            3
        };
        if width <= bytes.len() {
            let rest: Seq<u8> = bytes.skip(width);
            lemma_unwrapping(rest, chars.skip(1));
            if unwraps(bytes, chars) {
                assert(seq![chars[0]] + chars.skip(1) =~= chars);
            }
            if fields::unescaped(bytes) == Ok::<Seq<char>, Seq<char>>(chars) {
                let read: Seq<char> = fields::unescaped(rest)->Ok_0;
                assert(chars == seq![chars[0]] + read);
                assert(chars.skip(1) =~= read);
            }
        }
    }
}

/// A text is read exactly where its bytes unwrap to it.
pub proof fn lemma_text_reading(field: Seq<char>, held: Seq<char>)
    ensures
        fields::text_field(field) == Ok::<Seq<char>, Seq<char>>(held) <==> reads_text(field, held),
{
    lemma_unwrapping(vstd::utf8::encode_utf8(field), held);
}

/// A header is read exactly where its fields say it.
pub proof fn lemma_header_reading(parts: Seq<Seq<char>>, header: BlockHeader)
    ensures
        message::header_of(parts) == Ok::<BlockHeader, Seq<char>>(header) <==> reads_header(
            parts,
            header,
        ),
{
    lemma_number_reading(parts[1], u64::MAX as nat, "height"@, header.height as nat);
    lemma_digest_reading(parts[2], header.previous_block);
    lemma_model_reading(parts[3], header.model_before);
    lemma_model_reading(parts[4], header.model_after);
    lemma_digest_reading(parts[5], header.trace_root);
    lemma_number_reading(parts[6], u64::MAX as nat, "training_seed"@, header.training_seed as nat);
    lemma_number_reading(
        parts[7],
        u64::MAX as nat,
        "sampling_entropy"@,
        header.sampling_entropy as nat,
    );
    lemma_number_reading(parts[8], usize::MAX as nat, "sample_count"@, header.sample_count as nat);
    lemma_number_reading(parts[9], u64::MAX as nat, "nonce"@, header.nonce as nat);
}

/// A block is read exactly where its fields say it.
pub proof fn lemma_block_reading(parts: Seq<Seq<char>>, block: BlockView)
    requires
        parts.len() > 0,
        parts[0] == "BLOCK"@,
    ensures
        message::block_of(parts) == Ok::<BlockView, Seq<char>>(block) <==> reads_block(
            parts,
            block,
        ),
{
    reveal(message::block_of);
    lemma_header_reading(parts, block.header);
    lemma_model_reading(parts[10], block.trace.initial_model);
    lemma_model_reading(parts[11], block.trace.candidate_model);
    lemma_digest_reading(parts[12], block.trace.root);
    lemma_entries_reading(parts[13], block.trace.entries);
}

/// Fields read as a message exactly where they are those of a message of that kind that say it.
pub proof fn lemma_message_reading(parts: Seq<Seq<char>>, held: MessageView)
    ensures
        message::message_of(parts) == Ok::<MessageView, Seq<char>>(held) <==> parts.len() > 0
            && reads_message(parts, held),
{
    laws::lemma_kinds();
    match held {
        MessageView::Hello { node_id, height, head } => {
            lemma_text_reading(parts[1], node_id);
            lemma_number_reading(parts[2], u64::MAX as nat, "height"@, height as nat);
            lemma_digest_reading(parts[3], head);
        },
        MessageView::Block(block) => {
            if parts.len() > 0 && parts[0] == "BLOCK"@ {
                lemma_block_reading(parts, block);
            }
        },
        MessageView::GetBlocks { from_height, limit } => {
            lemma_number_reading(parts[1], u64::MAX as nat, "from_height"@, from_height as nat);
            lemma_number_reading(parts[2], usize::MAX as nat, "limit"@, limit as nat);
        },
        MessageView::Locate { hashes, limit } => {
            lemma_number_reading(parts[1], usize::MAX as nat, "limit"@, limit as nat);
            lemma_digests_reading(parts[2], hashes);
        },
        MessageView::EndBlocks => {},
        MessageView::Peer { addr } => {
            lemma_text_reading(parts[1], addr);
        },
    }
}

/// A line without the carriage returns and line feeds behind it.
pub open spec fn is_trimmed(line: Seq<char>, kept: Seq<char>) -> bool {
    &&& kept.len() <= line.len()
    &&& kept == line.take(kept.len() as int)
    &&& forall|i: int|
        kept.len() <= i < line.len() ==> (#[trigger] line[i] == '\r' || line[i] == '\n')
    &&& kept.len() > 0 ==> kept[kept.len() - 1] != '\r' && kept[kept.len() - 1] != '\n'
}

/// Trimming cuts all line ends behind a line and nothing else.
pub proof fn lemma_trimming(line: Seq<char>)
    ensures
        is_trimmed(line, message::trimmed(line)),
    decreases line.len(),
{
    if line.len() > 0 && (line.last() == '\r' || line.last() == '\n') {
        let fewer: Seq<char> = line.drop_last();
        lemma_trimming(fewer);
        let kept: Seq<char> = message::trimmed(fewer);
        assert(fewer.take(kept.len() as int) =~= line.take(kept.len() as int));
        assert forall|i: int| kept.len() <= i < line.len() implies (#[trigger] line[i] == '\r'
            || line[i] == '\n') by {
            if i < fewer.len() {
                assert(fewer[i] == line[i]);
            }
        }
    } else {
        assert(line.take(line.len() as int) =~= line);
    }
}

/// A line reads as a message exactly where, without the line ends behind it, bars cut it into the
/// fields of that message.
pub proof fn lemma_line_reading(line: Seq<char>, kept: Seq<char>, held: MessageView)
    requires
        is_trimmed(line, kept),
    ensures
        message::spec_decode(line) == Ok::<MessageView, Seq<char>>(held) <==> exists|
            parts: Seq<Seq<char>>,
        | #[trigger]
            is_cut(kept, '|', parts) && reads_message(parts, held),
{
    lemma_trimming_is_unique(line, kept);
    let parts: Seq<Seq<char>> = text::split(kept, '|');
    lemma_cut_is_split(kept, '|', parts);
    lemma_message_reading(parts, held);
    if exists|cut: Seq<Seq<char>>| #[trigger] is_cut(kept, '|', cut) && reads_message(cut, held) {
        let cut: Seq<Seq<char>> = choose|cut: Seq<Seq<char>>| #[trigger]
            is_cut(kept, '|', cut) && reads_message(cut, held);
        lemma_cut_is_split(kept, '|', cut);
    }
}

/// There is one way to cut the line ends behind a line.
pub proof fn lemma_trimming_is_unique(line: Seq<char>, kept: Seq<char>)
    requires
        is_trimmed(line, kept),
    ensures
        kept == message::trimmed(line),
{
    lemma_trimming(line);
    let made: Seq<char> = message::trimmed(line);
    if kept.len() < made.len() {
        assert(line[made.len() - 1] == made[made.len() - 1]);
    } else if made.len() < kept.len() {
        assert(line[kept.len() - 1] == kept[kept.len() - 1]);
    }
}

/// The four fields of an envelope with a node's own settings: the word, the version, the escaped
/// network and the fingerprint.
pub open spec fn is_own_envelope(parts: Seq<Seq<char>>, wire: WireView) -> bool {
    &&& parts.len() >= 5
    &&& parts[0] == "CHESSCOIN"@
    &&& reads_number(parts[1], u32::MAX as int, wire.protocol_version as int)
    &&& parts[2] == fields::escaped(wire.network_id)
    &&& reads_digest(parts[3], wire.chain_fingerprint)
}

/// A node reads an enveloped line as a message exactly where its first four fields are its own
/// settings and the fields behind them are those of that message.
pub proof fn lemma_network_line_reading(
    line: Seq<char>,
    kept: Seq<char>,
    wire: WireView,
    held: MessageView,
)
    requires
        is_trimmed(line, kept),
    ensures
        envelope::spec_decode_network(line, wire) == Ok::<MessageView, Seq<char>>(held) <==> exists|
            parts: Seq<Seq<char>>,
        | #[trigger]
            is_cut(kept, '|', parts) && is_own_envelope(parts, wire) && reads_message(
                parts.skip(4),
                held,
            ),
{
    lemma_trimming_is_unique(line, kept);
    let parts: Seq<Seq<char>> = text::split(kept, '|');
    lemma_cut_is_split(kept, '|', parts);
    lemma_message_reading(parts.skip(4), held);
    lemma_number_reading(
        parts[1],
        u32::MAX as nat,
        "protocol_version"@,
        wire.protocol_version as nat,
    );
    lemma_digest_reading(parts[3], wire.chain_fingerprint);
    if exists|cut: Seq<Seq<char>>| #[trigger]
        is_cut(kept, '|', cut) && is_own_envelope(cut, wire) && reads_message(cut.skip(4), held) {
        let cut: Seq<Seq<char>> = choose|cut: Seq<Seq<char>>| #[trigger]
            is_cut(kept, '|', cut) && is_own_envelope(cut, wire) && reads_message(
                cut.skip(4),
                held,
            );
        lemma_cut_is_split(kept, '|', cut);
    }
}

} // verus!
