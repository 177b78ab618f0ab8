//! The fields of a message: numbers, digests, models, trace entries and escaped text.

use vstd::prelude::*;

use crate::decimal;
use crate::domain::digest;
use crate::domain::model;
use crate::domain::{Digest, ModelState, TraceEntry, TrainingStep, MODEL_WIDTH};
use crate::text;

verus! {

/// The complaint about a field that could not be read.
pub open spec fn invalid_field(name: Seq<char>, field: Seq<char>) -> Seq<char> {
    "invalid "@ + name + ": '"@ + field + "'"@
}

/// What reading an unsigned number of at most `max` from a field gives.
pub open spec fn unsigned_field(field: Seq<char>, max: nat, name: Seq<char>) -> Result<
    nat,
    Seq<char>,
> {
    match decimal::spec_parse_unsigned(field, max) {
        Some(value) => Ok(value),
        None => Err(invalid_field(name, field)),
    }
}

/// What reading a 64-bit signed number from a field gives.
pub open spec fn signed_field(field: Seq<char>, name: Seq<char>) -> Result<int, Seq<char>> {
    match decimal::spec_parse_i64(field) {
        Some(value) => Ok(value),
        None => Err(invalid_field(name, field)),
    }
}

fn complain(name: &str, field: &[char]) -> (message: String)
    ensures
        message@ == invalid_field(name@, field@),
{
    let mut out: String = "invalid ".to_string();
    out.append(name);
    out.append(": '");
    let held: String = text::string_of(field);
    out.append(held.as_str());
    out.append("'");
    out
}

/// Reads a 64-bit unsigned number.
pub fn parse_u64(field: &[char], name: &str) -> (result: Result<u64, String>)
    ensures
        match result {
            Ok(value) => unsigned_field(field@, u64::MAX as nat, name@) == Ok::<nat, Seq<char>>(
                value as nat,
            ),
            Err(message) => unsigned_field(field@, u64::MAX as nat, name@) == Err::<nat, Seq<char>>(
                message@,
            ),
        },
{
    match decimal::parse_unsigned(field, u64::MAX) {
        Some(value) => Ok(value),
        None => Err(complain(name, field)),
    }
}

/// Reads a 32-bit unsigned number.
pub fn parse_u32(field: &[char], name: &str) -> (result: Result<u32, String>)
    ensures
        match result {
            Ok(value) => unsigned_field(field@, u32::MAX as nat, name@) == Ok::<nat, Seq<char>>(
                value as nat,
            ),
            Err(message) => unsigned_field(field@, u32::MAX as nat, name@) == Err::<nat, Seq<char>>(
                message@,
            ),
        },
{
    match decimal::parse_unsigned(field, u32::MAX as u64) {
        Some(value) => Ok(value as u32),
        None => Err(complain(name, field)),
    }
}

/// Reads a size.
pub fn parse_usize(field: &[char], name: &str) -> (result: Result<usize, String>)
    ensures
        match result {
            Ok(value) => unsigned_field(field@, usize::MAX as nat, name@) == Ok::<nat, Seq<char>>(
                value as nat,
            ),
            Err(message) => unsigned_field(field@, usize::MAX as nat, name@) == Err::<
                nat,
                Seq<char>,
            >(message@),
        },
{
    match decimal::parse_unsigned(field, usize::MAX as u64) {
        Some(value) => Ok(value as usize),
        None => Err(complain(name, field)),
    }
}

/// Reads a 64-bit signed number.
pub fn parse_i64(field: &[char], name: &str) -> (result: Result<i64, String>)
    ensures
        match result {
            Ok(value) => signed_field(field@, name@) == Ok::<int, Seq<char>>(value as int),
            Err(message) => signed_field(field@, name@) == Err::<int, Seq<char>>(message@),
        },
{
    match decimal::parse_i64(field) {
        Some(value) => Ok(value),
        None => Err(complain(name, field)),
    }
}

/// Reads a digest.
pub fn parse_digest(field: &[char]) -> (result: Result<Digest, String>)
    ensures
        match result {
            Ok(value) => digest::spec_from_hex(field@) == Ok::<Digest, Seq<char>>(value),
            Err(message) => digest::spec_from_hex(field@) == Err::<Digest, Seq<char>>(message@),
        },
{
    let held: String = text::string_of(field);
    Digest::from_hex(held.as_str())
}

/// The text of a model: its weights, with an underscore between neighbours.
pub open spec fn model_text(held: ModelState) -> Seq<char> {
    model::joined_weights(held@, "_"@)
}

/// What reading weights from a list of fields gives: all of them, or the first complaint.
pub open spec fn read_weights(pieces: Seq<Seq<char>>) -> Result<Seq<int>, Seq<char>>
    decreases pieces.len(),
{
    if pieces.len() == 0 {
        Ok(Seq::empty())
    } else {
        match read_weights(pieces.drop_last()) {
            Ok(weights) => match signed_field(pieces.last(), "model weight"@) {
                Ok(weight) => Ok(weights.push(weight)),
                Err(message) => Err(message),
            },
            Err(message) => Err(message),
        }
    }
}

/// What reading a model from a field gives.
pub open spec fn model_field(field: Seq<char>) -> Result<ModelState, Seq<char>> {
    let pieces: Seq<Seq<char>> = text::split(field, '_');
    if pieces.len() != MODEL_WIDTH {
        Err("model requires 8 weights"@)
    } else {
        match read_weights(pieces) {
            Ok(weights) => Ok(ModelState::of(weights.map_values(|weight: int| weight as i64))),
            Err(message) => Err(message),
        }
    }
}

/// Writes a model.
pub fn encode_model(held: &ModelState) -> (field: String)
    ensures
        field@ == model_text(*held),
{
    held.join_weights("_")
}

/// A complaint about one of the first fields is the complaint about the whole list.
proof fn lemma_first_bad_weight(pieces: Seq<Seq<char>>, count: int)
    requires
        0 <= count <= pieces.len(),
        read_weights(pieces.take(count)) is Err,
    ensures
        read_weights(pieces) == read_weights(pieces.take(count)),
    decreases pieces.len(),
{
    if count == pieces.len() {
        assert(pieces.take(count) =~= pieces);
    } else {
        assert(pieces.drop_last().take(count) =~= pieces.take(count));
        lemma_first_bad_weight(pieces.drop_last(), count);
    }
}

/// Reads a model.
pub fn decode_model(field: &[char]) -> (result: Result<ModelState, String>)
    ensures
        match result {
            Ok(value) => model_field(field@) == Ok::<ModelState, Seq<char>>(value),
            Err(message) => model_field(field@) == Err::<ModelState, Seq<char>>(message@),
        },
{
    let pieces: Vec<Vec<char>> = text::split_chars(field, '_');
    let ghost texts: Seq<Seq<char>> = text::contents(pieces@);
    if pieces.len() != MODEL_WIDTH {
        return Err("model requires 8 weights".to_string());
    }
    let mut weights: [i64; MODEL_WIDTH] = [0;8];
    let ghost mut read: Seq<int> = Seq::empty();
    let mut index: usize = 0;
    assert(texts.take(0) =~= Seq::<Seq<char>>::empty());
    while index < MODEL_WIDTH
        invariant
            index <= MODEL_WIDTH,
            pieces@.len() == MODEL_WIDTH,
            texts == text::contents(pieces@),
            texts == text::split(field@, '_'),
            read.len() == index,
            read_weights(texts.take(index as int)) == Ok::<Seq<int>, Seq<char>>(read),
            forall|i: int| 0 <= i < index ==> #[trigger] weights@[i] == read[i],
        decreases MODEL_WIDTH - index,
    {
        assert(texts.take(index + 1).drop_last() =~= texts.take(index as int));
        assert(texts[index as int] == pieces@[index as int]@);
        match parse_i64(pieces[index].as_slice(), "model weight") {
            Ok(weight) => {
                weights[index] = weight;
                proof {
                    read = read.push(weight as int);
                }
            },
            Err(message) => {
                proof {
                    lemma_first_bad_weight(texts, index + 1);
                }
                return Err(message);
            },
        }
        index += 1;
    }
    proof {
        assert(texts.take(8) =~= texts);
        assert(weights@ =~= read.map_values(|weight: int| weight as i64));
    }
    Ok(ModelState::new(weights))
}

/// The fields of a trace entry.
pub open spec fn entry_parts(entry: TraceEntry) -> Seq<Seq<char>> {
    seq![
        digest::hex_text(entry.previous_commitment@),
        digest::hex_text(entry.commitment@),
        decimal::int_text(entry.step.index as int),
        decimal::int_text(entry.step.seed as int),
        decimal::int_text(entry.step.batch_id as int),
        decimal::int_text(entry.step.weight_index as int),
        decimal::int_text(entry.step.gradient as int),
        decimal::int_text(entry.step.learning_rate_ppm as int),
        model_text(entry.step.state_before),
        model_text(entry.step.state_after),
    ]
}

/// The text of a trace entry: its fields, with a comma between neighbours.
pub open spec fn entry_text(entry: TraceEntry) -> Seq<char> {
    text::join(entry_parts(entry), ","@)
}

/// What reading a trace entry gives: the entry, or the complaint about its first bad field.
pub open spec fn entry_field(field: Seq<char>) -> Result<TraceEntry, Seq<char>> {
    let pieces: Seq<Seq<char>> = text::split(field, ',');
    let previous_commitment = digest::spec_from_hex(pieces[0]);
    let commitment = digest::spec_from_hex(pieces[1]);
    let index = unsigned_field(pieces[2], u64::MAX as nat, "step.index"@);
    let seed = unsigned_field(pieces[3], u64::MAX as nat, "step.seed"@);
    let batch_id = unsigned_field(pieces[4], u64::MAX as nat, "step.batch_id"@);
    let weight_index = unsigned_field(pieces[5], usize::MAX as nat, "step.weight_index"@);
    let gradient = signed_field(pieces[6], "step.gradient"@);
    let learning_rate_ppm = signed_field(pieces[7], "step.learning_rate_ppm"@);
    let state_before = model_field(pieces[8]);
    let state_after = model_field(pieces[9]);
    if pieces.len() != 10 {
        Err("trace entry requires 10 fields"@)
    } else if previous_commitment is Err {
        Err(previous_commitment->Err_0)
    } else if commitment is Err {
        Err(commitment->Err_0)
    } else if index is Err {
        Err(index->Err_0)
    } else if seed is Err {
        Err(seed->Err_0)
    } else if batch_id is Err {
        Err(batch_id->Err_0)
    } else if weight_index is Err {
        Err(weight_index->Err_0)
    } else if gradient is Err {
        Err(gradient->Err_0)
    } else if learning_rate_ppm is Err {
        Err(learning_rate_ppm->Err_0)
    } else if state_before is Err {
        Err(state_before->Err_0)
    } else if state_after is Err {
        Err(state_after->Err_0)
    } else {
        Ok(
            TraceEntry {
                previous_commitment: previous_commitment->Ok_0,
                commitment: commitment->Ok_0,
                step: TrainingStep {
                    index: index->Ok_0 as u64,
                    seed: seed->Ok_0 as u64,
                    batch_id: batch_id->Ok_0 as u64,
                    weight_index: weight_index->Ok_0 as usize,
                    gradient: gradient->Ok_0 as i64,
                    learning_rate_ppm: learning_rate_ppm->Ok_0 as i64,
                    state_before: state_before->Ok_0,
                    state_after: state_after->Ok_0,
                },
            },
        )
    }
}

/// Writes a trace entry.
pub fn encode_entry(entry: &TraceEntry) -> (field: String)
    ensures
        field@ == entry_text(*entry),
{
    let step: &TrainingStep = &entry.step;
    let mut parts: Vec<String> = Vec::new();
    parts.push(entry.previous_commitment.to_hex());
    parts.push(entry.commitment.to_hex());
    parts.push(decimal::u64_text(step.index));
    parts.push(decimal::u64_text(step.seed));
    parts.push(decimal::u64_text(step.batch_id));
    parts.push(decimal::u64_text(step.weight_index as u64));
    parts.push(decimal::i64_text(step.gradient));
    parts.push(decimal::i64_text(step.learning_rate_ppm));
    parts.push(encode_model(&step.state_before));
    parts.push(encode_model(&step.state_after));
    assert(text::string_views(parts@) =~= entry_parts(*entry));
    text::join_strings(parts.as_slice(), ",")
}

/// Reads a trace entry.
pub fn decode_entry(field: &[char]) -> (result: Result<TraceEntry, String>)
    ensures
        match result {
            Ok(value) => entry_field(field@) == Ok::<TraceEntry, Seq<char>>(value),
            Err(message) => entry_field(field@) == Err::<TraceEntry, Seq<char>>(message@),
        },
{
    let pieces: Vec<Vec<char>> = text::split_chars(field, ',');
    let ghost texts: Seq<Seq<char>> = text::contents(pieces@);
    if pieces.len() != 10 {
        return Err("trace entry requires 10 fields".to_string());
    }
    assert(forall|i: int| 0 <= i < 10 ==> #[trigger] texts[i] == pieces@[i]@);
    let previous_commitment: Digest = match parse_digest(pieces[0].as_slice()) {
        Ok(value) => value,
        Err(message) => return Err(message),
    };
    let commitment: Digest = match parse_digest(pieces[1].as_slice()) {
        Ok(value) => value,
        Err(message) => return Err(message),
    };
    let index: u64 = match parse_u64(pieces[2].as_slice(), "step.index") {
        Ok(value) => value,
        Err(message) => return Err(message),
    };
    let seed: u64 = match parse_u64(pieces[3].as_slice(), "step.seed") {
        Ok(value) => value,
        Err(message) => return Err(message),
    };
    let batch_id: u64 = match parse_u64(pieces[4].as_slice(), "step.batch_id") {
        Ok(value) => value,
        Err(message) => return Err(message),
    };
    let weight_index: usize = match parse_usize(pieces[5].as_slice(), "step.weight_index") {
        Ok(value) => value,
        Err(message) => return Err(message),
    };
    let gradient: i64 = match parse_i64(pieces[6].as_slice(), "step.gradient") {
        Ok(value) => value,
        Err(message) => return Err(message),
    };
    let learning_rate_ppm: i64 = match parse_i64(pieces[7].as_slice(), "step.learning_rate_ppm") {
        Ok(value) => value,
        Err(message) => return Err(message),
    };
    let state_before: ModelState = match decode_model(pieces[8].as_slice()) {
        Ok(value) => value,
        Err(message) => return Err(message),
    };
    let state_after: ModelState = match decode_model(pieces[9].as_slice()) {
        Ok(value) => value,
        Err(message) => return Err(message),
    };
    Ok(
        TraceEntry {
            previous_commitment,
            commitment,
            step: TrainingStep {
                index,
                seed,
                batch_id,
                weight_index,
                gradient,
                learning_rate_ppm,
                state_before,
                state_after,
            },
        },
    )
}

/// The texts of the entries of a trace.
pub open spec fn entry_texts(entries: Seq<TraceEntry>) -> Seq<Seq<char>> {
    entries.map_values(|entry: TraceEntry| entry_text(entry))
}

/// The text of all entries: with a semicolon between neighbours.
pub open spec fn entries_text(entries: Seq<TraceEntry>) -> Seq<char> {
    text::join(entry_texts(entries), ";"@)
}

/// What reading entries from a list of fields gives: all of them, or the first complaint.
pub open spec fn read_entries(pieces: Seq<Seq<char>>) -> Result<Seq<TraceEntry>, Seq<char>>
    decreases pieces.len(),
{
    if pieces.len() == 0 {
        Ok(Seq::empty())
    } else {
        match read_entries(pieces.drop_last()) {
            Ok(entries) => match entry_field(pieces.last()) {
                Ok(entry) => Ok(entries.push(entry)),
                Err(message) => Err(message),
            },
            Err(message) => Err(message),
        }
    }
}

/// What reading the entries of a trace gives; none where the field is empty.
pub open spec fn entries_field(field: Seq<char>) -> Result<Seq<TraceEntry>, Seq<char>> {
    if field.len() == 0 {
        Ok(Seq::empty())
    } else {
        read_entries(text::split(field, ';'))
    }
}

/// Writes the entries of a trace.
pub fn encode_entries(entries: &[TraceEntry]) -> (field: String)
    ensures
        field@ == entries_text(entries@),
{
    let mut parts: Vec<String> = Vec::new();
    let mut index: usize = 0;
    assert(text::string_views(parts@) =~= entry_texts(entries@.take(0)));
    while index < entries.len()
        invariant
            index <= entries@.len(),
            text::string_views(parts@) == entry_texts(entries@.take(index as int)),
        decreases entries@.len() - index,
    {
        let ghost before: Seq<String> = parts@;
        parts.push(encode_entry(&entries[index]));
        index += 1;
        assert(text::string_views(parts@) =~= text::string_views(before).push(
            entry_text(entries@[index - 1]),
        ));
        assert(entry_texts(entries@.take(index as int)) =~= entry_texts(
            entries@.take(index - 1),
        ).push(entry_text(entries@[index - 1])));
    }
    assert(entries@.take(index as int) =~= entries@);
    text::join_strings(parts.as_slice(), ";")
}

/// A complaint about one of the first entries is the complaint about the whole list.
proof fn lemma_first_bad_entry(pieces: Seq<Seq<char>>, count: int)
    requires
        0 <= count <= pieces.len(),
        read_entries(pieces.take(count)) is Err,
    ensures
        read_entries(pieces) == read_entries(pieces.take(count)),
    decreases pieces.len(),
{
    if count == pieces.len() {
        assert(pieces.take(count) =~= pieces);
    } else {
        assert(pieces.drop_last().take(count) =~= pieces.take(count));
        lemma_first_bad_entry(pieces.drop_last(), count);
    }
}

/// Reads the entries of a trace.
pub fn decode_entries(field: &[char]) -> (result: Result<Vec<TraceEntry>, String>)
    ensures
        match result {
            Ok(entries) => entries_field(field@) == Ok::<Seq<TraceEntry>, Seq<char>>(entries@),
            Err(message) => entries_field(field@) == Err::<Seq<TraceEntry>, Seq<char>>(message@),
        },
{
    let mut entries: Vec<TraceEntry> = Vec::new();
    if field.len() == 0 {
        assert(entries@ =~= Seq::<TraceEntry>::empty());
        return Ok(entries);
    }
    let pieces: Vec<Vec<char>> = text::split_chars(field, ';');
    let ghost texts: Seq<Seq<char>> = text::contents(pieces@);
    let mut index: usize = 0;
    assert(texts.take(0) =~= Seq::<Seq<char>>::empty());
    assert(entries@ =~= Seq::<TraceEntry>::empty());
    while index < pieces.len()
        invariant
            index <= pieces@.len(),
            field@.len() > 0,
            texts == text::contents(pieces@),
            texts == text::split(field@, ';'),
            read_entries(texts.take(index as int)) == Ok::<Seq<TraceEntry>, Seq<char>>(entries@),
        decreases pieces@.len() - index,
    {
        assert(texts.take(index + 1).drop_last() =~= texts.take(index as int));
        assert(texts[index as int] == pieces@[index as int]@);
        match decode_entry(pieces[index].as_slice()) {
            Ok(entry) => entries.push(entry),
            Err(message) => {
                proof {
                    lemma_first_bad_entry(texts, index + 1);
                }
                return Err(message);
            },
        }
        index += 1;
    }
    assert(texts.take(index as int) =~= texts);
    Ok(entries)
}

/// How a character is written inside a field: the separator and the escape sign by their codes.
pub open spec fn escaped_char(c: char) -> Seq<char> {
    if c == '%' {
        seq!['%', '2', '5']
    } else if c == '|' {
        seq!['%', '7', 'C']
    } else {
        seq![c]
    }
}

/// How a text is written inside a field.
pub open spec fn escaped(field: Seq<char>) -> Seq<char>
    decreases field.len(),
{
    if field.len() == 0 {
        Seq::empty()
    } else {
        escaped(field.drop_last()) + escaped_char(field.last())
    }
}

/// Writes a text so that it holds no separator.
pub fn escape(field: &str) -> (out: String)
    ensures
        out@ == escaped(field@),
{
    let chars: Vec<char> = text::chars_of(field);
    let mut out: String = String::new();
    let mut index: usize = 0;
    assert(chars@.take(0) =~= Seq::<char>::empty());
    while index < chars.len()
        invariant
            index <= chars@.len(),
            out@ == escaped(chars@.take(index as int)),
        decreases chars@.len() - index,
    {
        let c: char = chars[index];
        assert(chars@.take(index + 1).drop_last() =~= chars@.take(index as int));
        if c == '%' {
            out.push('%');
            out.push('2');
            out.push('5');
        } else if c == '|' {
            out.push('%');
            out.push('7');
            out.push('C');
        } else {
            out.push(c);
        }
        index += 1;
        assert(out@ =~= escaped(chars@.take(index as int)));
    }
    assert(chars@.take(index as int) =~= chars@);
    out
}

/// The value of the two bytes behind an escape sign: two hexadecimal digits, or one behind a plus
/// sign.
pub open spec fn escape_value(high: u8, low: u8) -> Option<u8> {
    match (digest::hex_value(high), digest::hex_value(low)) {
        (Some(upper), Some(lower)) => Some((upper * 16 + lower) as u8),
        (None, Some(lower)) => if high == 43 {
            Some(lower)
        } else {
            None
        },
        _ => None,
    }
}

/// A result with characters put before it.
pub open spec fn after_chars(before: Seq<char>, rest: Result<Seq<char>, Seq<char>>) -> Result<
    Seq<char>,
    Seq<char>,
> {
    match rest {
        Ok(chars) => Ok(before + chars),
        Err(message) => Err(message),
    }
}

/// What reading escaped bytes gives: every byte is a character of its own, and an escape sign
/// takes the two bytes behind it.
pub open spec fn unescaped(bytes: Seq<u8>) -> Result<Seq<char>, Seq<char>>
    decreases bytes.len(),
{
    if bytes.len() == 0 {
        Ok(Seq::empty())
    } else if bytes[0] != 37 {
        after_chars(seq![bytes[0] as char], unescaped(bytes.skip(1)))
    } else if bytes.len() < 3 {
        Err("truncated escape"@)
    } else {
        match escape_value(bytes[1], bytes[2]) {
            Some(value) => after_chars(seq![value as char], unescaped(bytes.skip(3))),
            None => Err("invalid escape"@),
        }
    }
}

/// What reading an escaped field gives.
pub open spec fn text_field(field: Seq<char>) -> Result<Seq<char>, Seq<char>> {
    unescaped(vstd::utf8::encode_utf8(field))
}

/// Reads an escaped field.
pub fn unescape(field: &[char]) -> (result: Result<String, String>)
    ensures
        match result {
            Ok(value) => text_field(field@) == Ok::<Seq<char>, Seq<char>>(value@),
            Err(message) => text_field(field@) == Err::<Seq<char>, Seq<char>>(message@),
        },
{
    let held: String = text::string_of(field);
    let bytes: &[u8] = held.as_str().as_bytes();
    let mut out: String = String::new();
    let mut index: usize = 0;
    proof {
        assert(bytes@.skip(0) =~= bytes@);
        if let Ok(rest) = unescaped(bytes@) {
            assert(out@ + rest =~= rest);
        }
    }
    while index < bytes.len()
        invariant
            index <= bytes@.len(),
            bytes@ == vstd::utf8::encode_utf8(field@),
            text_field(field@) == after_chars(out@, unescaped(bytes@.skip(index as int))),
        decreases bytes@.len() - index,
    {
        let ghost before: Seq<char> = out@;
        let ghost rest: Seq<u8> = bytes@.skip(index as int);
        let byte: u8 = bytes[index];
        if byte != 37 {
            out.push(byte as char);
            index += 1;
            proof {
                assert(bytes@.skip(index as int) =~= rest.skip(1));
                if let Ok(chars) = unescaped(rest.skip(1)) {
                    assert(before + (seq![byte as char] + chars) =~= out@ + chars);
                }
            }
        } else {
            if bytes.len() - index < 3 {
                return Err("truncated escape".to_string());
            }
            let high: u8 = bytes[index + 1];
            let low: u8 = bytes[index + 2];
            let value: u8 = match (digest::decode_hex_digit(high), digest::decode_hex_digit(low)) {
                (Ok(upper), Ok(lower)) => upper * 16 + lower,
                (Err(_), Ok(lower)) => {
                    if high != 43 {
                        return Err("invalid escape".to_string());
                    }
                    lower
                },
                _ => return Err("invalid escape".to_string()),
            };
            out.push(value as char);
            index += 3;
            proof {
                assert(bytes@.skip(index as int) =~= rest.skip(3));
                if let Ok(chars) = unescaped(rest.skip(3)) {
                    assert(before + (seq![value as char] + chars) =~= out@ + chars);
                }
            }
        }
    }
    proof {
        assert(out@ + Seq::<char>::empty() =~= out@);
    }
    Ok(out)
}

} // verus!
