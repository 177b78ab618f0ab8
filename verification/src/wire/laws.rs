//! What is written is read back.

use vstd::prelude::*;

use crate::decimal;
use crate::domain::block::BlockView;
use crate::domain::digest;
use crate::domain::model;
use crate::domain::{Digest, ModelState, TraceEntry};
use crate::text;
use crate::wire::envelope;
use crate::wire::envelope::{WireView, WIRE_MAGIC};
use crate::wire::fields;
use crate::wire::message;
use crate::wire::message::MessageView;

verus! {

/// Every character of the text passes.
pub open spec fn every(held: Seq<char>, ok: spec_fn(char) -> bool) -> bool {
    forall|i: int| 0 <= i < held.len() ==> ok(#[trigger] held[i])
}

/// The characters that numbers, digests and models are written with.
pub open spec fn is_word_char(c: char) -> bool {
    ||| decimal::is_digit(c)
    ||| c == '-'
    ||| c == '_'
    ||| 'a' <= c <= 'f'
}

/// A line end.
pub open spec fn is_line_end(c: char) -> bool {
    c == '\r' || c == '\n'
}

/// The text of a number has digits and at most a minus sign.
proof fn lemma_number_chars(value: int)
    ensures
        decimal::int_text(value).len() > 0,
        every(decimal::int_text(value), |c: char| decimal::is_digit(c) || c == '-'),
        every(decimal::int_text(value), |c: char| is_word_char(c)),
{
    let magnitude: nat = if value < 0 {
        (-value) as nat
    } else {
        value as nat
    };
    decimal::lemma_digits_round_trip(magnitude);
    let digits: Seq<char> = decimal::digits_of(magnitude);
    assert forall|i: int| 0 <= i < digits.len() implies decimal::is_digit(#[trigger] digits[i]) by {
    }
}

/// The text of a digest has hexadecimal digits.
pub proof fn lemma_hex_chars(bytes: Seq<u8>)
    ensures
        every(digest::hex_text(bytes), |c: char| is_word_char(c)),
        vstd::utf8::is_ascii_chars(digest::hex_text(bytes)),
{
}

/// Joined texts hold what the parts and the separator hold.
pub proof fn lemma_join_chars(
    parts: Seq<Seq<char>>,
    separator: Seq<char>,
    ok: spec_fn(char) -> bool,
)
    requires
        forall|i: int| 0 <= i < parts.len() ==> every(#[trigger] parts[i], ok),
        every(separator, ok),
    ensures
        every(text::join(parts, separator), ok),
    decreases parts.len(),
{
    if parts.len() > 1 {
        lemma_join_chars(parts.drop_last(), separator, ok);
        assert(every(parts[parts.len() - 1], ok));
    } else if parts.len() == 1 {
        assert(every(parts[0], ok));
    }
}

/// A text in which every character passes does not hold one that fails.
pub proof fn lemma_every_excludes(held: Seq<char>, ok: spec_fn(char) -> bool, c: char)
    requires
        every(held, ok),
        !ok(c),
    ensures
        !held.contains(c),
{
}

/// The text of a model has word characters.
proof fn lemma_model_chars(held: ModelState)
    ensures
        every(fields::model_text(held), |c: char| is_word_char(c)),
{
    reveal_strlit("_");
    let texts: Seq<Seq<char>> = model::weight_texts(held@);
    assert forall|i: int| 0 <= i < texts.len() implies every(
        #[trigger] texts[i],
        |c: char| is_word_char(c),
    ) by {
        lemma_number_chars(held@[i] as int);
    }
    lemma_join_chars(texts, "_"@, |c: char| is_word_char(c));
}

/// The hexadecimal text of a digest reads back as that digest.
pub proof fn lemma_digest_round_trip(held: Digest)
    ensures
        digest::spec_from_hex(digest::hex_text(held@)) == Ok::<Digest, Seq<char>>(held),
{
    broadcast use digest::lemma_digest_len;

    let shown: Seq<char> = digest::hex_text(held@);
    lemma_hex_chars(held@);
    vstd::utf8::is_ascii_chars_encode_utf8(shown);
    let bytes: Seq<u8> = vstd::utf8::encode_utf8(shown);
    assert forall|i: int| 0 <= i < bytes.len() implies digest::hex_value(
        #[trigger] bytes[i],
    ) is Some by {
        assert(bytes[i] == shown[i] as u8);
    }
    assert forall|i: int| 0 <= i < 32 implies digest::hex_bytes(bytes)[i] == held@[i] by {
        let byte: u8 = held@[i];
        assert(bytes[2 * i] == shown[2 * i] as u8);
        assert(bytes[2 * i + 1] == shown[2 * i + 1] as u8);
        assert((2 * i) / 2 == i && (2 * i) % 2 == 0);
        assert((2 * i + 1) / 2 == i && (2 * i + 1) % 2 == 1);
        assert(digest::hex_value(bytes[2 * i]) == Some((byte / 16) as u8));
        assert(digest::hex_value(bytes[2 * i + 1]) == Some((byte % 16) as u8));
    }
    assert(digest::hex_bytes(bytes) =~= held@);
    Digest::lemma_of(held@);
    digest::lemma_digest_ext(Digest::of(held@), held);
}

/// The texts of weights read back as these weights.
proof fn lemma_weights_round_trip(weights: Seq<i64>)
    ensures
        fields::read_weights(model::weight_texts(weights)) == Ok::<Seq<int>, Seq<char>>(
            weights.map_values(|weight: i64| weight as int),
        ),
    decreases weights.len(),
{
    if weights.len() > 0 {
        let fewer: Seq<i64> = weights.drop_last();
        lemma_weights_round_trip(fewer);
        assert(model::weight_texts(weights).drop_last() =~= model::weight_texts(fewer));
        decimal::lemma_i64_round_trip(weights.last());
        assert(fewer.map_values(|weight: i64| weight as int).push(weights.last() as int)
            =~= weights.map_values(|weight: i64| weight as int));
    } else {
        assert(weights.map_values(|weight: i64| weight as int) =~= Seq::<int>::empty());
    }
}

/// The text of a model reads back as that model.
pub proof fn lemma_model_round_trip(held: ModelState)
    ensures
        fields::model_field(fields::model_text(held)) == Ok::<ModelState, Seq<char>>(held),
{
    broadcast use model::lemma_model_len;

    reveal_strlit("_");
    assert("_"@ =~= seq!['_']);
    let texts: Seq<Seq<char>> = model::weight_texts(held@);
    assert forall|i: int| 0 <= i < texts.len() implies !(#[trigger] texts[i]).contains('_') by {
        lemma_number_chars(held@[i] as int);
        lemma_every_excludes(texts[i], |c: char| decimal::is_digit(c) || c == '-', '_');
    }
    text::lemma_split_join(texts, '_');
    lemma_weights_round_trip(held@);
    let read: Seq<int> = held@.map_values(|weight: i64| weight as int);
    assert(read.map_values(|weight: int| weight as i64) =~= held@);
    ModelState::lemma_of(held@);
    model::lemma_model_ext(ModelState::of(held@), held);
}

/// The fields of an entry have word characters.
proof fn lemma_entry_part_chars(entry: TraceEntry)
    ensures
        forall|i: int|
            0 <= i < fields::entry_parts(entry).len() ==> every(
                #[trigger] fields::entry_parts(entry)[i],
                |c: char| is_word_char(c),
            ),
{
    lemma_hex_chars(entry.previous_commitment@);
    lemma_hex_chars(entry.commitment@);
    lemma_number_chars(entry.step.index as int);
    lemma_number_chars(entry.step.seed as int);
    lemma_number_chars(entry.step.batch_id as int);
    lemma_number_chars(entry.step.weight_index as int);
    lemma_number_chars(entry.step.gradient as int);
    lemma_number_chars(entry.step.learning_rate_ppm as int);
    lemma_model_chars(entry.step.state_before);
    lemma_model_chars(entry.step.state_after);
}

/// The text of a trace entry reads back as that entry.
pub proof fn lemma_entry_round_trip(entry: TraceEntry)
    ensures
        fields::entry_field(fields::entry_text(entry)) == Ok::<TraceEntry, Seq<char>>(entry),
{
    reveal_strlit(",");
    assert(","@ =~= seq![',']);
    let parts: Seq<Seq<char>> = fields::entry_parts(entry);
    lemma_entry_part_chars(entry);
    assert forall|i: int| 0 <= i < parts.len() implies !(#[trigger] parts[i]).contains(',') by {
        lemma_every_excludes(parts[i], |c: char| is_word_char(c), ',');
    }
    text::lemma_split_join(parts, ',');
    lemma_digest_round_trip(entry.previous_commitment);
    lemma_digest_round_trip(entry.commitment);
    decimal::lemma_unsigned_round_trip(entry.step.index as nat, u64::MAX as nat);
    decimal::lemma_unsigned_round_trip(entry.step.seed as nat, u64::MAX as nat);
    decimal::lemma_unsigned_round_trip(entry.step.batch_id as nat, u64::MAX as nat);
    decimal::lemma_unsigned_round_trip(entry.step.weight_index as nat, usize::MAX as nat);
    decimal::lemma_i64_round_trip(entry.step.gradient);
    decimal::lemma_i64_round_trip(entry.step.learning_rate_ppm);
    lemma_model_round_trip(entry.step.state_before);
    lemma_model_round_trip(entry.step.state_after);
}

/// The text of an entry is not empty and has word characters and commas.
proof fn lemma_entry_chars(entry: TraceEntry)
    ensures
        fields::entry_text(entry).len() > 0,
        every(fields::entry_text(entry), |c: char| is_word_char(c) || c == ','),
{
    reveal_strlit(",");
    let parts: Seq<Seq<char>> = fields::entry_parts(entry);
    let ok = |c: char| is_word_char(c) || c == ',';
    lemma_entry_part_chars(entry);
    assert forall|i: int| 0 <= i < parts.len() implies every(#[trigger] parts[i], ok) by {
        assert(every(parts[i], |c: char| is_word_char(c)));
    }
    lemma_join_chars(parts, ","@, ok);
    assert(fields::entry_text(entry) == text::join(parts.drop_last(), ","@) + ","@ + parts.last());
}

/// The texts of entries read back as these entries.
proof fn lemma_entry_list_round_trip(entries: Seq<TraceEntry>)
    ensures
        fields::read_entries(fields::entry_texts(entries)) == Ok::<Seq<TraceEntry>, Seq<char>>(
            entries,
        ),
    decreases entries.len(),
{
    if entries.len() > 0 {
        let fewer: Seq<TraceEntry> = entries.drop_last();
        lemma_entry_list_round_trip(fewer);
        assert(fields::entry_texts(entries).drop_last() =~= fields::entry_texts(fewer));
        lemma_entry_round_trip(entries.last());
        assert(fewer.push(entries.last()) =~= entries);
    } else {
        assert(entries =~= Seq::<TraceEntry>::empty());
    }
}

/// The text of all entries has word characters, commas and semicolons.
proof fn lemma_entries_chars(entries: Seq<TraceEntry>)
    ensures
        entries.len() > 0 ==> fields::entries_text(entries).len() > 0,
        every(fields::entries_text(entries), |c: char| is_word_char(c) || c == ',' || c == ';'),
{
    reveal_strlit(";");
    let texts: Seq<Seq<char>> = fields::entry_texts(entries);
    let ok = |c: char| is_word_char(c) || c == ',' || c == ';';
    assert forall|i: int| 0 <= i < texts.len() implies every(#[trigger] texts[i], ok) by {
        lemma_entry_chars(entries[i]);
    }
    lemma_join_chars(texts, ";"@, ok);
    if entries.len() > 0 {
        lemma_entry_chars(entries.last());
        assert(texts.last() == fields::entry_text(entries.last()));
    }
}

/// The text of all entries of a trace reads back as these entries.
pub proof fn lemma_entries_round_trip(entries: Seq<TraceEntry>)
    ensures
        fields::entries_field(fields::entries_text(entries)) == Ok::<Seq<TraceEntry>, Seq<char>>(
            entries,
        ),
{
    reveal_strlit(";");
    assert(";"@ =~= seq![';']);
    let texts: Seq<Seq<char>> = fields::entry_texts(entries);
    lemma_entries_chars(entries);
    if entries.len() > 0 {
        assert forall|i: int| 0 <= i < texts.len() implies !(#[trigger] texts[i]).contains(';') by {
            lemma_entry_chars(entries[i]);
            lemma_every_excludes(texts[i], |c: char| is_word_char(c) || c == ',', ';');
        }
        text::lemma_split_join(texts, ';');
        lemma_entry_list_round_trip(entries);
    } else {
        assert(entries =~= Seq::<TraceEntry>::empty());
    }
}

/// An escaped text begins with its first character, escaped.
pub proof fn lemma_escaped_first(held: Seq<char>)
    requires
        held.len() > 0,
    ensures
        fields::escaped(held) == fields::escaped_char(held[0]) + fields::escaped(held.skip(1)),
    decreases held.len(),
{
    let first: Seq<char> = fields::escaped_char(held[0]);
    if held.len() == 1 {
        assert(held.skip(1) =~= Seq::<char>::empty());
        assert(held.drop_last() =~= Seq::<char>::empty());
        assert(Seq::<char>::empty() + first =~= first + Seq::<char>::empty());
    } else {
        lemma_escaped_first(held.drop_last());
        assert(held.drop_last().skip(1) =~= held.skip(1).drop_last());
        let middle: Seq<char> = fields::escaped(held.drop_last().skip(1));
        let last: Seq<char> = fields::escaped_char(held.last());
        assert((first + middle) + last =~= first + (middle + last));
    }
}

/// The bytes of ASCII characters, one each.
pub open spec fn ascii_bytes(chars: Seq<char>) -> Seq<u8> {
    chars.map_values(|c: char| c as u8)
}

/// ASCII text is written with one byte a character.
proof fn lemma_ascii_bytes(chars: Seq<char>)
    requires
        vstd::utf8::is_ascii_chars(chars),
    ensures
        vstd::utf8::encode_utf8(chars) == ascii_bytes(chars),
{
    vstd::utf8::is_ascii_chars_encode_utf8(chars);
    assert(vstd::utf8::encode_utf8(chars) =~= ascii_bytes(chars));
}

/// Escaping keeps text ASCII, and leaves no separator in it.
proof fn lemma_escaped_chars(held: Seq<char>)
    ensures
        !fields::escaped(held).contains('|'),
        vstd::utf8::is_ascii_chars(held) ==> vstd::utf8::is_ascii_chars(fields::escaped(held)),
    decreases held.len(),
{
    if held.len() > 0 {
        let fewer: Seq<char> = held.drop_last();
        lemma_escaped_chars(fewer);
        let last: Seq<char> = fields::escaped_char(held.last());
        let whole: Seq<char> = fields::escaped(held);
        assert forall|i: int| 0 <= i < whole.len() implies #[trigger] whole[i] != '|' by {
            let before: Seq<char> = fields::escaped(fewer);
            if i < before.len() {
                assert(before.contains(before[i]));
                assert(whole[i] == before[i]);
            } else {
                assert(whole[i] == last[i - before.len()]);
            }
        }
        if vstd::utf8::is_ascii_chars(held) {
            assert forall|i: int| 0 <= i < fewer.len() implies '\0' <= #[trigger] fewer[i]
                <= '\u{7f}' by {
                assert(fewer[i] == held[i]);
            }
            assert('\0' <= held[held.len() - 1] <= '\u{7f}');
            assert(vstd::utf8::is_ascii_chars(last));
        }
    }
}

/// An escaped ASCII text reads back as that text.
pub proof fn lemma_escape_round_trip(held: Seq<char>)
    requires
        vstd::utf8::is_ascii_chars(held),
    ensures
        fields::text_field(fields::escaped(held)) == Ok::<Seq<char>, Seq<char>>(held),
{
    lemma_escaped_chars(held);
    lemma_ascii_bytes(fields::escaped(held));
    lemma_unescape_ascii(held);
}

proof fn lemma_unescape_ascii(held: Seq<char>)
    requires
        vstd::utf8::is_ascii_chars(held),
    ensures
        fields::unescaped(ascii_bytes(fields::escaped(held))) == Ok::<Seq<char>, Seq<char>>(held),
    decreases held.len(),
{
    if held.len() == 0 {
        assert(ascii_bytes(fields::escaped(held)) =~= Seq::<u8>::empty());
        assert(held =~= Seq::<char>::empty());
    } else {
        let c: char = held[0];
        let rest: Seq<char> = held.skip(1);
        assert forall|i: int| 0 <= i < rest.len() implies '\0' <= #[trigger] rest[i]
            <= '\u{7f}' by {
            assert(rest[i] == held[i + 1]);
        }
        lemma_unescape_ascii(rest);
        lemma_escaped_first(held);
        let bytes: Seq<u8> = ascii_bytes(fields::escaped(held));
        let width: int = fields::escaped_char(c).len() as int;
        assert(bytes.skip(width) =~= ascii_bytes(fields::escaped(rest)));
        assert(bytes[0] == fields::escaped_char(c)[0] as u8);
        if width == 3 {
            assert(bytes[1] == fields::escaped_char(c)[1] as u8);
            assert(bytes[2] == fields::escaped_char(c)[2] as u8);
        }
        assert(seq![c] + rest =~= held);
    }
}

/// Different texts are escaped differently.
pub proof fn lemma_escape_is_injective(left: Seq<char>, right: Seq<char>)
    requires
        fields::escaped(left) == fields::escaped(right),
    ensures
        left == right,
    decreases left.len(),
{
    if left.len() == 0 || right.len() == 0 {
        if left.len() > 0 {
            lemma_escaped_first(left);
            assert(fields::escaped(left).len() > 0);
        }
        if right.len() > 0 {
            lemma_escaped_first(right);
            assert(fields::escaped(right).len() > 0);
        }
        assert(left =~= right);
    } else {
        lemma_escaped_first(left);
        lemma_escaped_first(right);
        let a: Seq<char> = fields::escaped_char(left[0]);
        let b: Seq<char> = fields::escaped_char(right[0]);
        let whole: Seq<char> = fields::escaped(left);
        assert(whole[0] == a[0] && whole[0] == b[0]);
        if a.len() == 3 && b.len() == 3 {
            assert(whole[1] == a[1] && whole[1] == b[1]);
        }
        assert(left[0] == right[0]);
        assert(whole.skip(a.len() as int) =~= fields::escaped(left.skip(1)));
        assert(whole.skip(b.len() as int) =~= fields::escaped(right.skip(1)));
        lemma_escape_is_injective(left.skip(1), right.skip(1));
        assert(seq![left[0]] + left.skip(1) =~= left);
        assert(seq![right[0]] + right.skip(1) =~= right);
    }
}

/// The names of the kinds of message hold no separator and differ from each other.
pub proof fn lemma_kinds()
    ensures
        !"HELLO"@.contains('|'),
        !"BLOCK"@.contains('|'),
        !"GETBLOCKS"@.contains('|'),
        !"LOCATE"@.contains('|'),
        !"ENDBLOCKS"@.contains('|'),
        !"PEER"@.contains('|'),
        "BLOCK"@ != "HELLO"@,
        "GETBLOCKS"@ != "HELLO"@,
        "GETBLOCKS"@ != "BLOCK"@,
        "LOCATE"@ != "HELLO"@,
        "LOCATE"@ != "BLOCK"@,
        "LOCATE"@ != "GETBLOCKS"@,
        "ENDBLOCKS"@ != "HELLO"@,
        "ENDBLOCKS"@ != "BLOCK"@,
        "ENDBLOCKS"@ != "GETBLOCKS"@,
        "ENDBLOCKS"@ != "LOCATE"@,
        "PEER"@ != "HELLO"@,
        "PEER"@ != "BLOCK"@,
        "PEER"@ != "GETBLOCKS"@,
        "PEER"@ != "LOCATE"@,
        "PEER"@ != "ENDBLOCKS"@,
        "HELLO"@.last() == 'O',
        "BLOCK"@.last() == 'K',
        "GETBLOCKS"@.last() == 'S',
        "LOCATE"@.last() == 'E',
        "ENDBLOCKS"@.last() == 'S',
        "PEER"@.last() == 'R',
        "ENDBLOCKS"@.len() == 9,
{
    reveal_strlit("HELLO");
    reveal_strlit("BLOCK");
    reveal_strlit("GETBLOCKS");
    reveal_strlit("LOCATE");
    reveal_strlit("ENDBLOCKS");
    reveal_strlit("PEER");
    assert("BLOCK"@[0] == 'B');
    assert("HELLO"@[0] == 'H');
    assert("GETBLOCKS"@[0] == 'G');
    assert("LOCATE"@[0] == 'L');
    assert("ENDBLOCKS"@[0] == 'E');
    assert("PEER"@[0] == 'P');
}

/// Whether a message is read back as it was written: text is read byte by byte, so it must be
/// ASCII, and a trailing address must not end in a line end.
pub open spec fn is_carried(held: MessageView) -> bool {
    match held {
        MessageView::Hello { node_id, .. } => vstd::utf8::is_ascii_chars(node_id),
        MessageView::Peer { addr } => vstd::utf8::is_ascii_chars(addr) && (addr.len() > 0
            ==> !is_line_end(addr.last())),
        _ => true,
    }
}

/// The texts of digests read back as these digests.
proof fn lemma_hash_list_round_trip(hashes: Seq<Digest>)
    ensures
        message::read_hashes(message::hash_texts(hashes)) == Ok::<Seq<Digest>, Seq<char>>(hashes),
    decreases hashes.len(),
{
    if hashes.len() > 0 {
        let fewer: Seq<Digest> = hashes.drop_last();
        lemma_hash_list_round_trip(fewer);
        assert(message::hash_texts(hashes).drop_last() =~= message::hash_texts(fewer));
        lemma_digest_round_trip(hashes.last());
        assert(fewer.push(hashes.last()) =~= hashes);
    } else {
        assert(hashes =~= Seq::<Digest>::empty());
    }
}

/// The text of a list of digests has word characters and commas, and reads back as the list.
proof fn lemma_hashes_round_trip(hashes: Seq<Digest>)
    ensures
        every(
            text::join(message::hash_texts(hashes), ","@),
            |c: char| is_word_char(c) || c == ',',
        ),
        message::hashes_field(text::join(message::hash_texts(hashes), ","@)) == Ok::<
            Seq<Digest>,
            Seq<char>,
        >(hashes),
{
    broadcast use digest::lemma_digest_len;

    reveal_strlit(",");
    assert(","@ =~= seq![',']);
    let texts: Seq<Seq<char>> = message::hash_texts(hashes);
    let ok = |c: char| is_word_char(c) || c == ',';
    assert forall|i: int| 0 <= i < texts.len() implies every(#[trigger] texts[i], ok) by {
        lemma_hex_chars(hashes[i]@);
        assert(every(texts[i], |c: char| is_word_char(c)));
    }
    lemma_join_chars(texts, ","@, ok);
    if hashes.len() > 0 {
        assert forall|i: int| 0 <= i < texts.len() implies !(#[trigger] texts[i]).contains(',') by {
            lemma_hex_chars(hashes[i]@);
            lemma_every_excludes(texts[i], |c: char| is_word_char(c), ',');
        }
        text::lemma_split_join(texts, ',');
        lemma_hash_list_round_trip(hashes);
        assert(texts.last() == digest::hex_text(hashes.last()@));
        assert(text::join(texts, ","@).len() > 0);
    } else {
        assert(hashes =~= Seq::<Digest>::empty());
    }
}

/// The fields of a block hold no separator, and no line end stands behind the last of them.
pub proof fn lemma_block_part_chars(block: BlockView)
    ensures
        text::none_holds(message::block_parts(block), '|'),
        every(
            message::block_parts(block).last(),
            |c: char| is_word_char(c) || c == ',' || c == ';',
        ),
{
    let parts: Seq<Seq<char>> = message::block_parts(block);
    lemma_kinds();
    lemma_number_chars(block.header.height as int);
    lemma_hex_chars(block.header.previous_block@);
    lemma_model_chars(block.header.model_before);
    lemma_model_chars(block.header.model_after);
    lemma_hex_chars(block.header.trace_root@);
    lemma_number_chars(block.header.training_seed as int);
    lemma_number_chars(block.header.sampling_entropy as int);
    lemma_number_chars(block.header.sample_count as int);
    lemma_number_chars(block.header.nonce as int);
    lemma_model_chars(block.trace.initial_model);
    lemma_model_chars(block.trace.candidate_model);
    lemma_hex_chars(block.trace.root@);
    lemma_entries_chars(block.trace.entries);
    assert forall|i: int| 0 <= i < parts.len() implies !(#[trigger] parts[i]).contains('|') by {
        if i == 13 {
            lemma_every_excludes(
                parts[i],
                |c: char| is_word_char(c) || c == ',' || c == ';',
                '|',
            );
        } else if i > 0 {
            lemma_every_excludes(parts[i], |c: char| is_word_char(c), '|');
        }
    }
}

/// The fields of a block read back as the block.
proof fn lemma_block_fields_round_trip(block: BlockView)
    ensures
        message::block_of(message::block_parts(block)) == Ok::<BlockView, Seq<char>>(block),
{
    reveal(message::block_of);
    decimal::lemma_unsigned_round_trip(block.header.height as nat, u64::MAX as nat);
    lemma_digest_round_trip(block.header.previous_block);
    lemma_model_round_trip(block.header.model_before);
    lemma_model_round_trip(block.header.model_after);
    lemma_digest_round_trip(block.header.trace_root);
    decimal::lemma_unsigned_round_trip(block.header.training_seed as nat, u64::MAX as nat);
    decimal::lemma_unsigned_round_trip(block.header.sampling_entropy as nat, u64::MAX as nat);
    decimal::lemma_unsigned_round_trip(block.header.sample_count as nat, usize::MAX as nat);
    decimal::lemma_unsigned_round_trip(block.header.nonce as nat, u64::MAX as nat);
    lemma_entries_round_trip(block.trace.entries);
    lemma_model_round_trip(block.trace.initial_model);
    lemma_model_round_trip(block.trace.candidate_model);
    lemma_digest_round_trip(block.trace.root);
}

/// The last character of joined texts is that of the last part; a separator where that is empty.
proof fn lemma_join_last(parts: Seq<Seq<char>>, separator: char)
    requires
        parts.len() > 0,
        parts.len() == 1 ==> parts[0].len() > 0,
    ensures
        text::join(parts, seq![separator]).len() > 0,
        text::join(parts, seq![separator]).last() == (if parts.last().len() > 0 {
            parts.last().last()
        } else {
            separator
        }),
{
}

/// The fields of a message hold no separator and read back as the message, and no line end stands
/// behind the last of them.
pub open spec fn reads_back(held: MessageView) -> bool {
    let parts: Seq<Seq<char>> = message::message_parts(held);
    &&& parts.len() > 0
    &&& parts.len() == 1 ==> parts[0].len() > 0
    &&& text::none_holds(parts, '|')
    &&& message::message_of(parts) == Ok::<MessageView, Seq<char>>(held)
    &&& parts.last().len() > 0 ==> !is_line_end(parts.last().last())
}

proof fn lemma_hello_reads_back(node_id: Seq<char>, height: u64, head: Digest)
    requires
        vstd::utf8::is_ascii_chars(node_id),
    ensures
        reads_back(MessageView::Hello { node_id, height, head }),
{
    broadcast use digest::lemma_digest_len;

    let parts: Seq<Seq<char>> = message::message_parts(
        MessageView::Hello { node_id, height, head },
    );
    lemma_kinds();
    lemma_escaped_chars(node_id);
    lemma_number_chars(height as int);
    lemma_hex_chars(head@);
    lemma_every_excludes(parts[2], |c: char| is_word_char(c), '|');
    lemma_every_excludes(parts[3], |c: char| is_word_char(c), '|');
    lemma_escape_round_trip(node_id);
    decimal::lemma_unsigned_round_trip(height as nat, u64::MAX as nat);
    lemma_digest_round_trip(head);
    assert(is_word_char(parts[3][63]));
}

/// The fields of a block message hold no separator and read back as the block.
pub proof fn lemma_block_reads_back(block: BlockView)
    ensures
        reads_back(MessageView::Block(block)),
{
    let parts: Seq<Seq<char>> = message::block_parts(block);
    lemma_kinds();
    lemma_block_part_chars(block);
    lemma_block_fields_round_trip(block);
    let entries: Seq<char> = parts[13];
    if entries.len() > 0 {
        let last: char = entries[entries.len() - 1];
        assert(is_word_char(last) || last == ',' || last == ';');
    }
}

proof fn lemma_get_blocks_reads_back(from_height: u64, limit: usize)
    ensures
        reads_back(MessageView::GetBlocks { from_height, limit }),
{
    let parts: Seq<Seq<char>> = message::message_parts(
        MessageView::GetBlocks { from_height, limit },
    );
    lemma_kinds();
    lemma_number_chars(from_height as int);
    lemma_number_chars(limit as int);
    lemma_every_excludes(parts[1], |c: char| is_word_char(c), '|');
    lemma_every_excludes(parts[2], |c: char| is_word_char(c), '|');
    decimal::lemma_unsigned_round_trip(from_height as nat, u64::MAX as nat);
    decimal::lemma_unsigned_round_trip(limit as nat, usize::MAX as nat);
    assert(is_word_char(parts[2][parts[2].len() - 1]));
}

proof fn lemma_locate_reads_back(hashes: Seq<Digest>, limit: usize)
    ensures
        reads_back(MessageView::Locate { hashes, limit }),
{
    let parts: Seq<Seq<char>> = message::message_parts(MessageView::Locate { hashes, limit });
    lemma_kinds();
    lemma_number_chars(limit as int);
    lemma_hashes_round_trip(hashes);
    lemma_every_excludes(parts[1], |c: char| is_word_char(c), '|');
    lemma_every_excludes(parts[2], |c: char| is_word_char(c) || c == ',', '|');
    decimal::lemma_unsigned_round_trip(limit as nat, usize::MAX as nat);
    if parts[2].len() > 0 {
        let last: char = parts[2][parts[2].len() - 1];
        assert(is_word_char(last) || last == ',');
    }
}

proof fn lemma_peer_reads_back(addr: Seq<char>)
    requires
        vstd::utf8::is_ascii_chars(addr),
        addr.len() > 0 ==> !is_line_end(addr.last()),
    ensures
        reads_back(MessageView::Peer { addr }),
{
    lemma_kinds();
    lemma_escaped_chars(addr);
    lemma_escape_round_trip(addr);
}

proof fn lemma_message_reads_back(held: MessageView)
    requires
        is_carried(held),
    ensures
        reads_back(held),
{
    match held {
        MessageView::Hello { node_id, height, head } => {
            lemma_hello_reads_back(node_id, height, head);
        },
        MessageView::Block(block) => {
            lemma_block_reads_back(block);
        },
        MessageView::GetBlocks { from_height, limit } => {
            lemma_get_blocks_reads_back(from_height, limit);
        },
        MessageView::Locate { hashes, limit } => {
            lemma_locate_reads_back(hashes, limit);
        },
        MessageView::EndBlocks => {
            lemma_kinds();
        },
        MessageView::Peer { addr } => {
            lemma_peer_reads_back(addr);
        },
    }
}

/// Line ends behind a text that has none at its end are cut off.
proof fn lemma_trimmed(held: Seq<char>, ends: Seq<char>)
    requires
        held.len() > 0 ==> !is_line_end(held.last()),
        every(ends, |c: char| is_line_end(c)),
    ensures
        message::trimmed(held + ends) == held,
    decreases ends.len(),
{
    if ends.len() == 0 {
        assert(held + ends =~= held);
    } else {
        let fewer: Seq<char> = ends.drop_last();
        assert(is_line_end(ends[ends.len() - 1]));
        assert forall|i: int| 0 <= i < fewer.len() implies is_line_end(#[trigger] fewer[i]) by {
            assert(fewer[i] == ends[i]);
        }
        lemma_trimmed(held, fewer);
        assert((held + ends).drop_last() =~= held + fewer);
    }
}

/// A text without line ends is not trimmed.
pub proof fn lemma_line_is_trimmed(line: Seq<char>)
    requires
        every(line, |c: char| !is_line_end(c)),
    ensures
        message::trimmed(line) == line,
{
    if line.len() > 0 {
        assert(!is_line_end(line[line.len() - 1]));
    }
}

/// Joined texts begin with the first part.
pub proof fn lemma_join_first(parts: Seq<Seq<char>>, separator: Seq<char>)
    requires
        parts.len() > 0,
    ensures
        parts[0].is_prefix_of(text::join(parts, separator)),
    decreases parts.len(),
{
    if parts.len() > 1 {
        lemma_join_first(parts.drop_last(), separator);
    }
}

/// A message reads back as it was written, with or without line ends behind it.
pub proof fn lemma_message_round_trip(held: MessageView, ends: Seq<char>)
    requires
        is_carried(held),
        every(ends, |c: char| is_line_end(c)),
    ensures
        message::spec_decode(message::message_text(held) + ends) == Ok::<MessageView, Seq<char>>(
            held,
        ),
{
    reveal_strlit("|");
    assert("|"@ =~= seq!['|']);
    let parts: Seq<Seq<char>> = message::message_parts(held);
    lemma_message_reads_back(held);
    lemma_join_last(parts, '|');
    lemma_trimmed(message::message_text(held), ends);
    text::lemma_split_join(parts, '|');
}

/// A block reads back as it was written, whatever it holds.
pub proof fn lemma_block_round_trip(block: BlockView)
    ensures
        message::spec_decode_block(message::message_text(MessageView::Block(block))) == Ok::<
            BlockView,
            Seq<char>,
        >(block),
{
    let none: Seq<char> = Seq::empty();
    let line: Seq<char> = message::message_text(MessageView::Block(block));
    lemma_message_round_trip(MessageView::Block(block), none);
    assert(line + none =~= line);
}

/// Different blocks are written differently.
pub proof fn lemma_block_text_is_injective(left: BlockView, right: BlockView)
    requires
        message::message_text(MessageView::Block(left)) == message::message_text(
            MessageView::Block(right),
        ),
    ensures
        left == right,
{
    lemma_block_round_trip(left);
    lemma_block_round_trip(right);
}

/// A message that was written has no line end in it, so one line carries it; a greeting or an
/// address may hold line ends of its own.
pub proof fn lemma_message_is_one_line(held: MessageView)
    requires
        match held {
            MessageView::Hello { node_id, .. } => every(node_id, |c: char| !is_line_end(c)),
            MessageView::Peer { addr } => every(addr, |c: char| !is_line_end(c)),
            _ => true,
        },
    ensures
        every(message::message_text(held), |c: char| !is_line_end(c)),
{
    let ok = |c: char| !is_line_end(c);
    reveal_strlit("|");
    reveal_strlit("HELLO");
    reveal_strlit("BLOCK");
    reveal_strlit("GETBLOCKS");
    reveal_strlit("LOCATE");
    reveal_strlit("ENDBLOCKS");
    reveal_strlit("PEER");
    let parts: Seq<Seq<char>> = message::message_parts(held);
    assert forall|i: int| 0 <= i < parts.len() implies every(#[trigger] parts[i], ok) by {
        match held {
            MessageView::Hello { node_id, height, head } => {
                lemma_escaped_keeps_line(node_id);
                lemma_number_chars(height as int);
                lemma_hex_chars(head@);
                if i >= 2 {
                    assert(every(parts[i], |c: char| is_word_char(c)));
                }
            },
            MessageView::Block(block) => {
                lemma_number_chars(block.header.height as int);
                lemma_hex_chars(block.header.previous_block@);
                lemma_model_chars(block.header.model_before);
                lemma_model_chars(block.header.model_after);
                lemma_hex_chars(block.header.trace_root@);
                lemma_number_chars(block.header.training_seed as int);
                lemma_number_chars(block.header.sampling_entropy as int);
                lemma_number_chars(block.header.sample_count as int);
                lemma_number_chars(block.header.nonce as int);
                lemma_model_chars(block.trace.initial_model);
                lemma_model_chars(block.trace.candidate_model);
                lemma_hex_chars(block.trace.root@);
                lemma_entries_chars(block.trace.entries);
                if i == 13 {
                    assert(every(parts[i], |c: char| is_word_char(c) || c == ',' || c == ';'));
                } else if i > 0 {
                    assert(every(parts[i], |c: char| is_word_char(c)));
                }
            },
            MessageView::GetBlocks { from_height, limit } => {
                lemma_number_chars(from_height as int);
                lemma_number_chars(limit as int);
                if i > 0 {
                    assert(every(parts[i], |c: char| is_word_char(c)));
                }
            },
            MessageView::Locate { hashes, limit } => {
                lemma_number_chars(limit as int);
                lemma_hashes_round_trip(hashes);
                if i == 1 {
                    assert(every(parts[i], |c: char| is_word_char(c)));
                } else if i == 2 {
                    assert(every(parts[i], |c: char| is_word_char(c) || c == ','));
                }
            },
            MessageView::EndBlocks => {},
            MessageView::Peer { addr } => {
                lemma_escaped_keeps_line(addr);
            },
        }
    }
    lemma_join_chars(parts, "|"@, ok);
}

/// Escaping brings no line end into a text.
proof fn lemma_escaped_keeps_line(held: Seq<char>)
    requires
        every(held, |c: char| !is_line_end(c)),
    ensures
        every(fields::escaped(held), |c: char| !is_line_end(c)),
    decreases held.len(),
{
    if held.len() > 0 {
        let fewer: Seq<char> = held.drop_last();
        assert forall|i: int| 0 <= i < fewer.len() implies !is_line_end(#[trigger] fewer[i]) by {
            assert(fewer[i] == held[i]);
        }
        lemma_escaped_keeps_line(fewer);
        assert(!is_line_end(held[held.len() - 1]));
    }
}

/// The fields of an envelope hold no separator.
proof fn lemma_envelope_parts(wire: WireView)
    ensures
        text::none_holds(envelope::envelope_parts(wire), '|'),
{
    reveal_strlit("CHESSCOIN");
    let parts: Seq<Seq<char>> = envelope::envelope_parts(wire);
    lemma_number_chars(wire.protocol_version as int);
    lemma_escaped_chars(wire.network_id);
    lemma_hex_chars(wire.chain_fingerprint@);
    lemma_every_excludes(parts[1], |c: char| is_word_char(c), '|');
    lemma_every_excludes(parts[3], |c: char| is_word_char(c), '|');
    assert(!WIRE_MAGIC@.contains('|'));
}

/// The fields of an enveloped line are those of the envelope and those of the message.
proof fn lemma_enveloped_fields(wire: WireView, held: MessageView, ends: Seq<char>)
    requires
        is_carried(held),
        every(ends, |c: char| is_line_end(c)),
    ensures
        text::split(message::trimmed(envelope::network_text(wire, held) + ends), '|')
            == envelope::envelope_parts(wire) + message::message_parts(held),
{
    reveal_strlit("|");
    assert("|"@ =~= seq!['|']);
    let outer: Seq<Seq<char>> = envelope::envelope_parts(wire);
    let inner: Seq<Seq<char>> = message::message_parts(held);
    let parts: Seq<Seq<char>> = outer + inner;
    lemma_envelope_parts(wire);
    lemma_message_reads_back(held);
    assert forall|i: int| 0 <= i < parts.len() implies !(#[trigger] parts[i]).contains('|') by {
        if i < 4 {
            assert(parts[i] == outer[i]);
        } else {
            assert(parts[i] == inner[i - 4]);
        }
    }
    assert(parts.last() == inner.last());
    lemma_join_last(parts, '|');
    lemma_trimmed(envelope::network_text(wire, held), ends);
    text::lemma_split_join(parts, '|');
}

/// A node finds no fault in an envelope with its own settings.
proof fn lemma_own_envelope(wire: WireView, inner: Seq<Seq<char>>)
    requires
        inner.len() > 0,
    ensures
        envelope::envelope_fault(envelope::envelope_parts(wire) + inner, wire) is None,
        (envelope::envelope_parts(wire) + inner).skip(4) == inner,
{
    let outer: Seq<Seq<char>> = envelope::envelope_parts(wire);
    decimal::lemma_unsigned_round_trip(wire.protocol_version as nat, u32::MAX as nat);
    lemma_digest_round_trip(wire.chain_fingerprint);
    assert((outer + inner).skip(4) =~= inner);
}

/// An enveloped message reads back at a node with the same settings.
pub proof fn lemma_envelope_round_trip(wire: WireView, held: MessageView, ends: Seq<char>)
    requires
        is_carried(held),
        every(ends, |c: char| is_line_end(c)),
    ensures
        envelope::spec_decode_network(envelope::network_text(wire, held) + ends, wire) == Ok::<
            MessageView,
            Seq<char>,
        >(held),
{
    lemma_enveloped_fields(wire, held, ends);
    lemma_message_reads_back(held);
    lemma_own_envelope(wire, message::message_parts(held));
}

/// A node refuses a message from an envelope that differs from its own settings in version,
/// network or chain parameters.
pub proof fn lemma_foreign_envelope_is_refused(
    sent: WireView,
    own: WireView,
    held: MessageView,
    ends: Seq<char>,
)
    requires
        sent != own,
        is_carried(held),
        every(ends, |c: char| is_line_end(c)),
    ensures
        envelope::spec_decode_network(envelope::network_text(sent, held) + ends, own) is Err,
{
    lemma_enveloped_fields(sent, held, ends);
    decimal::lemma_unsigned_round_trip(sent.protocol_version as nat, u32::MAX as nat);
    lemma_digest_round_trip(sent.chain_fingerprint);
    if fields::escaped(sent.network_id) == fields::escaped(own.network_id) {
        lemma_escape_is_injective(sent.network_id, own.network_id);
    }
    if sent.protocol_version == own.protocol_version && sent.network_id == own.network_id
        && sent.chain_fingerprint == own.chain_fingerprint {
        assert(sent =~= own);
    }
}

/// A node that takes a line has found its own version, network and chain parameters in it, and
/// the line begins with the word that marks an envelope.
pub proof fn lemma_taken_line_matches(line: Seq<char>, own: WireView)
    requires
        envelope::spec_decode_network(line, own) is Ok,
    ensures
        ({
            let parts: Seq<Seq<char>> = text::split(message::trimmed(line), '|');
            &&& parts.len() >= 5
            &&& parts[0] == WIRE_MAGIC@
            &&& decimal::spec_parse_unsigned(parts[1], u32::MAX as nat) == Some(
                own.protocol_version as nat,
            )
            &&& parts[2] == fields::escaped(own.network_id)
            &&& digest::spec_from_hex(parts[3]) == Ok::<Digest, Seq<char>>(own.chain_fingerprint)
            &&& envelope::spec_decode_network(line, own) == message::message_of(parts.skip(4))
        }),
{
}

/// An enveloped line begins with the word that marks an envelope.
pub proof fn lemma_envelope_begins(wire: WireView, held: MessageView, ends: Seq<char>)
    ensures
        WIRE_MAGIC@.is_prefix_of(envelope::network_text(wire, held) + ends),
{
    let parts: Seq<Seq<char>> = envelope::envelope_parts(wire) + message::message_parts(held);
    lemma_join_first(parts, "|"@);
    assert(parts[0] == WIRE_MAGIC@);
}

} // verus!
