//! What is told about a line that cannot be read: the first thing that is wrong with it.

use vstd::prelude::*;

use crate::domain::block::BlockView;
use crate::domain::digest;
use crate::domain::{Digest, ModelState, TraceEntry};
use crate::storage;
use crate::storage::format_laws;
use crate::text;
use crate::text_laws;
use crate::wire::envelope;
use crate::wire::envelope::WireView;
use crate::wire::fields;
use crate::wire::laws;
use crate::wire::message;
use crate::wire::message::MessageView;
use crate::wire::reading_laws;

verus! {

/// The complaint of a result, where it has one.
pub open spec fn complaint<T>(result: Result<T, Seq<char>>) -> Option<Seq<char>> {
    match result {
        Ok(_) => None,
        Err(message) => Some(message),
    }
}

/// The first complaint of a list.
pub open spec fn first_complaint(complaints: Seq<Option<Seq<char>>>) -> Option<Seq<char>>
    decreases complaints.len(),
{
    if complaints.len() == 0 {
        None
    } else if complaints[0] is Some {
        complaints[0]
    } else {
        first_complaint(complaints.skip(1))
    }
}

/// The complaints about the fields of an entry, in their order.
pub open spec fn entry_complaints(pieces: Seq<Seq<char>>) -> Seq<Option<Seq<char>>> {
    seq![
        complaint(digest::spec_from_hex(pieces[0])),
        complaint(digest::spec_from_hex(pieces[1])),
        complaint(fields::unsigned_field(pieces[2], u64::MAX as nat, "step.index"@)),
        complaint(fields::unsigned_field(pieces[3], u64::MAX as nat, "step.seed"@)),
        complaint(fields::unsigned_field(pieces[4], u64::MAX as nat, "step.batch_id"@)),
        complaint(fields::unsigned_field(pieces[5], usize::MAX as nat, "step.weight_index"@)),
        complaint(fields::signed_field(pieces[6], "step.gradient"@)),
        complaint(fields::signed_field(pieces[7], "step.learning_rate_ppm"@)),
        complaint(fields::model_field(pieces[8])),
        complaint(fields::model_field(pieces[9])),
    ]
}

/// An entry that cannot be read is told to have the wrong number of fields, or its first bad field.
pub proof fn lemma_entry_complaint(field: Seq<char>, pieces: Seq<Seq<char>>)
    requires
        reading_laws::is_cut(field, ',', pieces),
    ensures
        complaint(fields::entry_field(field)) == if pieces.len() != 10 {
            Some("trace entry requires 10 fields"@)
        } else {
            first_complaint(entry_complaints(pieces))
        },
{
    reading_laws::lemma_cut_is_split(field, ',', pieces);
    reveal_with_fuel(first_complaint, 11);
}

/// The complaints about the fields of a header, in their order.
pub open spec fn header_complaints(parts: Seq<Seq<char>>) -> Seq<Option<Seq<char>>> {
    seq![
        complaint(fields::unsigned_field(parts[1], u64::MAX as nat, "height"@)),
        complaint(digest::spec_from_hex(parts[2])),
        complaint(fields::model_field(parts[3])),
        complaint(fields::model_field(parts[4])),
        complaint(digest::spec_from_hex(parts[5])),
        complaint(fields::unsigned_field(parts[6], u64::MAX as nat, "training_seed"@)),
        complaint(fields::unsigned_field(parts[7], u64::MAX as nat, "sampling_entropy"@)),
        complaint(fields::unsigned_field(parts[8], usize::MAX as nat, "sample_count"@)),
        complaint(fields::unsigned_field(parts[9], u64::MAX as nat, "nonce"@)),
    ]
}

/// A header that cannot be read is told its first bad field.
pub proof fn lemma_header_complaint(parts: Seq<Seq<char>>)
    ensures
        complaint(message::header_of(parts)) == first_complaint(header_complaints(parts)),
{
    reveal_with_fuel(first_complaint, 10);
}

/// A block that cannot be read is told to have the wrong number of fields, or what is wrong with
/// its header, then its entries, then the rest of its trace.
pub proof fn lemma_block_complaint(parts: Seq<Seq<char>>)
    ensures
        complaint(message::block_of(parts)) == if parts.len() != 14 {
            Some("BLOCK requires 13 fields"@)
        } else {
            first_complaint(
                seq![
                    complaint(message::header_of(parts)),
                    complaint(fields::entries_field(parts[13])),
                    complaint(fields::model_field(parts[10])),
                    complaint(fields::model_field(parts[11])),
                    complaint(digest::spec_from_hex(parts[12])),
                ],
            )
        },
{
    reveal(message::block_of);
    reveal_with_fuel(first_complaint, 6);
}

/// A message that cannot be read is told an unknown kind, the wrong number of fields for its kind,
/// or its first bad field.
pub proof fn lemma_message_complaint(parts: Seq<Seq<char>>)
    requires
        parts.len() > 0,
    ensures
        ({
            let kind: Seq<char> = parts[0];
            let told: Option<Seq<char>> = complaint(message::message_of(parts));
            &&& kind == "HELLO"@ ==> told == if parts.len() != 4 {
                Some("HELLO requires 3 fields"@)
            } else {
                first_complaint(
                    seq![
                        complaint(fields::text_field(parts[1])),
                        complaint(fields::unsigned_field(parts[2], u64::MAX as nat, "height"@)),
                        complaint(digest::spec_from_hex(parts[3])),
                    ],
                )
            }
            &&& kind == "BLOCK"@ ==> told == complaint(message::block_of(parts))
            &&& kind == "GETBLOCKS"@ ==> told == if parts.len() != 3 {
                Some("GETBLOCKS requires 2 fields"@)
            } else {
                first_complaint(
                    seq![
                        complaint(
                            fields::unsigned_field(parts[1], u64::MAX as nat, "from_height"@),
                        ),
                        complaint(fields::unsigned_field(parts[2], usize::MAX as nat, "limit"@)),
                    ],
                )
            }
            &&& kind == "LOCATE"@ ==> told == if parts.len() != 3 {
                Some("LOCATE requires 2 fields"@)
            } else {
                first_complaint(
                    seq![
                        complaint(fields::unsigned_field(parts[1], usize::MAX as nat, "limit"@)),
                        complaint(message::hashes_field(parts[2])),
                    ],
                )
            }
            &&& kind == "ENDBLOCKS"@ ==> told == if parts.len() != 1 {
                Some("ENDBLOCKS requires 0 fields"@)
            } else {
                None
            }
            &&& kind == "PEER"@ ==> told == if parts.len() != 2 {
                Some("PEER requires 1 field"@)
            } else {
                complaint(fields::text_field(parts[1]))
            }
            &&& kind != "HELLO"@ && kind != "BLOCK"@ && kind != "GETBLOCKS"@ && kind != "LOCATE"@
                && kind != "ENDBLOCKS"@ && kind != "PEER"@ ==> told == Some(
                "unknown message type '"@ + kind + "'"@,
            )
        }),
{
    laws::lemma_kinds();
    reveal_with_fuel(first_complaint, 4);
}

/// The complaint about an item that is the first bad one of a list.
pub open spec fn is_first_bad(
    complaints: Seq<Option<Seq<char>>>,
    at: int,
    told: Seq<char>,
) -> bool {
    &&& 0 <= at < complaints.len()
    &&& complaints[at] == Some(told)
    &&& forall|i: int| 0 <= i < at ==> #[trigger] complaints[i] is None
}

/// The complaints about each weight, each entry and each digest of a list.
pub open spec fn weight_complaints(pieces: Seq<Seq<char>>) -> Seq<Option<Seq<char>>> {
    Seq::new(
        pieces.len(),
        |i: int| complaint(fields::signed_field(pieces[i], "model weight"@)),
    )
}

pub open spec fn list_complaints(pieces: Seq<Seq<char>>) -> Seq<Option<Seq<char>>> {
    Seq::new(pieces.len(), |i: int| complaint(fields::entry_field(pieces[i])))
}

pub open spec fn digest_complaints(pieces: Seq<Seq<char>>) -> Seq<Option<Seq<char>>> {
    Seq::new(pieces.len(), |i: int| complaint(digest::spec_from_hex(pieces[i])))
}

/// A list that cannot be read is told its first bad item.
proof fn lemma_weights_complaint(pieces: Seq<Seq<char>>, told: Seq<char>)
    requires
        fields::read_weights(pieces) == Err::<Seq<int>, Seq<char>>(told),
    ensures
        exists|at: int| #[trigger] is_first_bad(weight_complaints(pieces), at, told),
    decreases pieces.len(),
{
    let fewer: Seq<Seq<char>> = pieces.drop_last();
    let all: Seq<Option<Seq<char>>> = weight_complaints(pieces);
    match fields::read_weights(fewer) {
        Err(message) => {
            lemma_weights_complaint(fewer, told);
            let at: int = choose|at: int| #[trigger]
                is_first_bad(weight_complaints(fewer), at, told);
            assert(is_first_bad(all, at, told)) by {
                assert forall|i: int| 0 <= i < at implies #[trigger] all[i] is None by {
                    assert(weight_complaints(fewer)[i] is None);
                }
                assert(weight_complaints(fewer)[at] == all[at]);
            }
        },
        Ok(weights) => {
            reading_laws::lemma_weights_reading(fewer, weights);
            assert forall|i: int| 0 <= i < fewer.len() implies #[trigger] all[i] is None by {
                reading_laws::lemma_signed_reading(fewer[i], "model weight"@, weights[i]);
            }
            assert(is_first_bad(all, pieces.len() - 1, told));
        },
    }
}

proof fn lemma_list_complaint(pieces: Seq<Seq<char>>, told: Seq<char>)
    requires
        fields::read_entries(pieces) == Err::<Seq<TraceEntry>, Seq<char>>(told),
    ensures
        exists|at: int| #[trigger] is_first_bad(list_complaints(pieces), at, told),
    decreases pieces.len(),
{
    let fewer: Seq<Seq<char>> = pieces.drop_last();
    let all: Seq<Option<Seq<char>>> = list_complaints(pieces);
    match fields::read_entries(fewer) {
        Err(message) => {
            lemma_list_complaint(fewer, told);
            let at: int = choose|at: int| #[trigger] is_first_bad(list_complaints(fewer), at, told);
            assert(is_first_bad(all, at, told)) by {
                assert forall|i: int| 0 <= i < at implies #[trigger] all[i] is None by {
                    assert(list_complaints(fewer)[i] is None);
                }
                assert(list_complaints(fewer)[at] == all[at]);
            }
        },
        Ok(entries) => {
            reading_laws::lemma_each_entry_reading(fewer, entries);
            assert forall|i: int| 0 <= i < fewer.len() implies #[trigger] all[i] is None by {
                assert(reading_laws::reads_entry(fewer[i], entries[i]));
                reading_laws::lemma_entry_reading(fewer[i], entries[i]);
            }
            assert(is_first_bad(all, pieces.len() - 1, told));
        },
    }
}

proof fn lemma_digests_complaint(pieces: Seq<Seq<char>>, told: Seq<char>)
    requires
        message::read_hashes(pieces) == Err::<Seq<Digest>, Seq<char>>(told),
    ensures
        exists|at: int| #[trigger] is_first_bad(digest_complaints(pieces), at, told),
    decreases pieces.len(),
{
    let fewer: Seq<Seq<char>> = pieces.drop_last();
    let all: Seq<Option<Seq<char>>> = digest_complaints(pieces);
    match message::read_hashes(fewer) {
        Err(message) => {
            lemma_digests_complaint(fewer, told);
            let at: int = choose|at: int| #[trigger]
                is_first_bad(digest_complaints(fewer), at, told);
            assert(is_first_bad(all, at, told)) by {
                assert forall|i: int| 0 <= i < at implies #[trigger] all[i] is None by {
                    assert(digest_complaints(fewer)[i] is None);
                }
                assert(digest_complaints(fewer)[at] == all[at]);
            }
        },
        Ok(hashes) => {
            reading_laws::lemma_each_digest_reading(fewer, hashes);
            assert forall|i: int| 0 <= i < fewer.len() implies #[trigger] all[i] is None by {
                assert(reading_laws::reads_digest(fewer[i], hashes[i]));
                reading_laws::lemma_digest_reading(fewer[i], hashes[i]);
            }
            assert(is_first_bad(all, pieces.len() - 1, told));
        },
    }
}

/// A model that cannot be read is told not to have eight weights, or its first bad weight.
pub proof fn lemma_model_complaint(field: Seq<char>, pieces: Seq<Seq<char>>, told: Seq<char>)
    requires
        reading_laws::is_cut(field, '_', pieces),
        fields::model_field(field) == Err::<ModelState, Seq<char>>(told),
    ensures
        pieces.len() != 8 ==> told == "model requires 8 weights"@,
        pieces.len() == 8 ==> exists|at: int| #[trigger]
            is_first_bad(weight_complaints(pieces), at, told),
{
    reading_laws::lemma_cut_is_split(field, '_', pieces);
    if pieces.len() == 8 {
        lemma_weights_complaint(pieces, told);
    }
}

/// Entries that cannot be read are told the first bad one.
pub proof fn lemma_entries_complaint(field: Seq<char>, pieces: Seq<Seq<char>>, told: Seq<char>)
    requires
        reading_laws::is_cut(field, ';', pieces),
        fields::entries_field(field) == Err::<Seq<TraceEntry>, Seq<char>>(told),
    ensures
        exists|at: int| #[trigger] is_first_bad(list_complaints(pieces), at, told),
{
    reading_laws::lemma_cut_is_split(field, ';', pieces);
    lemma_list_complaint(pieces, told);
}

/// A list of digests that cannot be read is told the first bad one.
pub proof fn lemma_hashes_complaint(field: Seq<char>, pieces: Seq<Seq<char>>, told: Seq<char>)
    requires
        reading_laws::is_cut(field, ',', pieces),
        message::hashes_field(field) == Err::<Seq<Digest>, Seq<char>>(told),
    ensures
        exists|at: int| #[trigger] is_first_bad(digest_complaints(pieces), at, told),
{
    reading_laws::lemma_cut_is_split(field, ',', pieces);
    lemma_digests_complaint(pieces, told);
}

/// Bytes whose escapes are whole up to a place and not there: fewer than two bytes stand behind the
/// sign, or they are no code.
pub open spec fn breaks_escape(bytes: Seq<u8>, at: int, told: Seq<char>) -> bool {
    &&& 0 <= at < bytes.len()
    &&& bytes[at] == 37
    &&& exists|chars: Seq<char>| #[trigger] reading_laws::unwraps(bytes.take(at), chars)
    &&& if at + 2 >= bytes.len() {
        told == "truncated escape"@
    } else {
        &&& told == "invalid escape"@
        &&& text_laws::nibble(bytes[at + 2] as int) < 0 || (text_laws::nibble(
            bytes[at + 1] as int,
        ) < 0 && bytes[at + 1] != 43)
    }
}

proof fn lemma_escape_breaks(bytes: Seq<u8>, told: Seq<char>) -> (at: int)
    requires
        fields::unescaped(bytes) == Err::<Seq<char>, Seq<char>>(told),
    ensures
        breaks_escape(bytes, at, told),
    decreases bytes.len(),
{
    let none: Seq<char> = Seq::empty();
    if bytes[0] == 37 && (bytes.len() < 3 || fields::escape_value(bytes[1], bytes[2]) is None) {
        assert(reading_laws::unwraps(bytes.take(0), none));
        0
    } else {
        let width: int = if bytes[0] == 37 {
            3
        } else {
            1
        };
        let rest: Seq<u8> = bytes.skip(width);
        let at: int = lemma_escape_breaks(rest, told);
        let chars: Seq<char> = choose|chars: Seq<char>| #[trigger]
            reading_laws::unwraps(rest.take(at), chars);
        let part: Seq<u8> = bytes.take(at + width);
        let first: char = if width == 1 {
            bytes[0] as char
        } else {
            fields::escape_value(bytes[1], bytes[2])->0 as char
        };
        assert(part.skip(width) =~= rest.take(at));
        assert((seq![first] + chars).skip(1) =~= chars);
        assert(reading_laws::unwraps(part, seq![first] + chars));
        at + width
    }
}

/// A text that cannot be read is told how its first broken escape is broken.
pub proof fn lemma_text_complaint(field: Seq<char>, told: Seq<char>) -> (at: int)
    requires
        fields::text_field(field) == Err::<Seq<char>, Seq<char>>(told),
    ensures
        breaks_escape(vstd::utf8::encode_utf8(field), at, told),
{
    lemma_escape_breaks(vstd::utf8::encode_utf8(field), told)
}

/// What is told about an envelope: that there is none, then the first of its version, network and
/// fingerprint that cannot be read or is another than the node's.
pub proof fn lemma_envelope_complaint(parts: Seq<Seq<char>>, wire: WireView)
    ensures
        ({
            let told: Option<Seq<char>> = complaint(envelope::network_message_of(parts, wire));
            let version: Option<Seq<char>> = complaint(
                fields::unsigned_field(parts[1], u32::MAX as nat, "protocol_version"@),
            );
            let fingerprint: Option<Seq<char>> = complaint(digest::spec_from_hex(parts[3]));
            let framed: bool = parts.len() >= 5 && parts[0] == "CHESSCOIN"@;
            let spoken: bool = reading_laws::reads_number(
                parts[1],
                u32::MAX as int,
                wire.protocol_version as int,
            );
            let near: bool = parts[2] == fields::escaped(wire.network_id);
            let same: bool = reading_laws::reads_digest(parts[3], wire.chain_fingerprint);
            &&& !framed ==> told == Some("missing network envelope"@)
            &&& framed && version is Some ==> told == version
            &&& framed && version is None && !spoken ==> told == Some(
                "protocol version does not match"@,
            )
            &&& framed && spoken && !near ==> told == Some("network id does not match"@)
            &&& framed && spoken && near && fingerprint is Some ==> told == fingerprint
            &&& framed && spoken && near && fingerprint is None && !same ==> told == Some(
                "chain fingerprint does not match"@,
            )
            &&& framed && spoken && near && same ==> told == complaint(
                message::message_of(parts.skip(4)),
            )
        }),
{
    reading_laws::lemma_number_reading(
        parts[1],
        u32::MAX as nat,
        "protocol_version"@,
        wire.protocol_version as nat,
    );
    reading_laws::lemma_digest_reading(parts[3], wire.chain_fingerprint);
}

/// What is told about a stored line: of a record the first of its shape, version and checksum that
/// is wrong, then what is told about its block; that a message is no block.
pub proof fn lemma_record_complaint(parts: Seq<Seq<char>>)
    requires
        parts.len() > 0,
    ensures
        ({
            let told: Option<Seq<char>> = complaint(storage::stored_block_of(parts));
            let record: bool = parts[0] == "RECORD"@;
            let checksum: Option<Seq<char>> = complaint(digest::spec_from_hex(parts[2]));
            let rest: Seq<Seq<char>> = if record {
                parts.skip(3)
            } else {
                parts
            };
            let sound: bool = reading_laws::reads_digest(
                parts[2],
                format_laws::text_hash(text_laws::strung(parts.skip(3), seq!['|'])),
            );
            &&& record && parts.len() < 4 ==> told == Some(
                "record requires a version, a checksum and a block"@,
            )
            &&& record && parts.len() >= 4 && parts[1] != "1"@ ==> told == Some(
                "unknown record version '"@ + parts[1] + "'"@,
            )
            &&& record && parts.len() >= 4 && parts[1] == "1"@ && checksum is Some ==> told
                == checksum
            &&& record && parts.len() >= 4 && parts[1] == "1"@ && checksum is None && !sound
                ==> told == Some("record checksum does not match"@)
            &&& !record || (parts.len() >= 4 && parts[1] == "1"@ && sound) ==> told
                == match message::message_of(rest) {
                Ok(MessageView::Block(_)) => None,
                Ok(_) => Some("expected a BLOCK message"@),
                Err(message) => Some(message),
            }
        }),
{
    let rest: Seq<Seq<char>> = parts.skip(3);
    reveal_strlit("|");
    assert("|"@ =~= seq!['|']);
    text_laws::lemma_join_strings_parts(rest, "|"@);
    reading_laws::lemma_digest_reading(
        parts[2],
        format_laws::text_hash(text_laws::strung(rest, seq!['|'])),
    );
}

/// A line that must hold a block gives the block that it reads as; any other message is told.
pub proof fn lemma_block_line_reading(line: Seq<char>)
    ensures
        match message::spec_decode(line) {
            Ok(MessageView::Block(block)) => message::spec_decode_block(line) == Ok::<
                BlockView,
                Seq<char>,
            >(block),
            Ok(_) => message::spec_decode_block(line) == Err::<BlockView, Seq<char>>(
                "expected a BLOCK message"@,
            ),
            Err(told) => message::spec_decode_block(line) == Err::<BlockView, Seq<char>>(told),
        },
        message::spec_decode(line) == message::message_of(
            text::split(message::trimmed(line), '|'),
        ),
{
}

} // verus!
