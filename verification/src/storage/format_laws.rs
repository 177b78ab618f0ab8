//! What the lines of a block log hold and how a log is loaded, told from its characters.

use vstd::prelude::*;

use crate::adapters::{DeterministicSampler, ToyHash};
use crate::application::fork_choice;
use crate::application::fork_choice::ForkView;
use crate::application::ChainConfig;
use crate::domain::block::BlockView;
use crate::domain::Digest;
use crate::ports::HashPort;
use crate::storage;
use crate::storage::{LogTail, StorageErrorView};
use crate::text;
use crate::text_laws;
use crate::wire::message;
use crate::wire::message::MessageView;
use crate::wire::reading_laws;
use crate::wire::writing_laws;

verus! {

/// The toy hash of the bytes of a text.
pub open spec fn text_hash(body: Seq<char>) -> Digest {
    ToyHash.spec_digest(vstd::utf8::encode_utf8(body))
}

/// The fields before the block of a record: the word, the version and the hash of the text behind
/// them.
pub open spec fn writes_front(front: Seq<Seq<char>>, body: Seq<char>) -> bool {
    &&& front.len() == 3
    &&& front[0] == "RECORD"@
    &&& front[1] == "1"@
    &&& text_laws::is_hex_of(front[2], text_hash(body)@)
}

/// A record is written as its three fields and those of its block, with a bar between neighbours.
pub proof fn lemma_record_writing(block: BlockView) -> (written: (Seq<Seq<char>>, Seq<Seq<char>>))
    ensures
        writing_laws::writes_block(written.1, block),
        writes_front(written.0, text_laws::strung(written.1, seq!['|'])),
        storage::record_text(block) == text_laws::strung(written.0 + written.1, seq!['|']),
{
    let parts: Seq<Seq<char>> = message::block_parts(block);
    let all: Seq<Seq<char>> = storage::record_parts(block);
    let front: Seq<Seq<char>> = all.take(3);
    writing_laws::lemma_block_writing(block);
    reveal_strlit("|");
    assert("|"@ =~= seq!['|']);
    text_laws::lemma_join_strings_parts(parts, "|"@);
    text_laws::lemma_join_strings_parts(all, "|"@);
    text_laws::lemma_hex_shows_bytes(text_hash(text::join(parts, "|"@))@);
    assert(front + parts =~= all);
    (front, parts)
}

/// The fields of a stored block: of a record of version one whose checksum is the hash of the text
/// behind it, or of a bare block.
pub open spec fn reads_stored(parts: Seq<Seq<char>>, block: BlockView) -> bool {
    if parts[0] == "RECORD"@ {
        &&& parts.len() >= 4
        &&& parts[1] == "1"@
        &&& reading_laws::reads_digest(
            parts[2],
            text_hash(text_laws::strung(parts.skip(3), seq!['|'])),
        )
        &&& reading_laws::reads_block(parts.skip(3), block)
    } else {
        reading_laws::reads_block(parts, block)
    }
}

/// A stored line reads as a block exactly where, without the line ends behind it, bars cut it into
/// the fields of that block, bare or in a record with the right checksum.
pub proof fn lemma_stored_reading(line: Seq<char>, kept: Seq<char>, block: BlockView)
    requires
        reading_laws::is_trimmed(line, kept),
    ensures
        storage::stored_block(line) == Ok::<BlockView, Seq<char>>(block) <==> exists|
            parts: Seq<Seq<char>>,
        | #[trigger]
            reading_laws::is_cut(kept, '|', parts) && reads_stored(parts, block),
{
    reading_laws::lemma_trimming_is_unique(line, kept);
    let parts: Seq<Seq<char>> = text::split(kept, '|');
    reading_laws::lemma_cut_is_split(kept, '|', parts);
    text::lemma_split_nonempty(kept, '|');
    let rest: Seq<Seq<char>> = parts.skip(3);
    let held: MessageView = MessageView::Block(block);
    reading_laws::lemma_message_reading(parts, held);
    reading_laws::lemma_message_reading(rest, held);
    reveal_strlit("|");
    assert("|"@ =~= seq!['|']);
    text_laws::lemma_join_strings_parts(rest, "|"@);
    reading_laws::lemma_digest_reading(
        parts[2],
        text_hash(text_laws::strung(rest, seq!['|'])),
    );
    if exists|cut: Seq<Seq<char>>| #[trigger]
        reading_laws::is_cut(kept, '|', cut) && reads_stored(cut, block) {
        let cut: Seq<Seq<char>> = choose|cut: Seq<Seq<char>>| #[trigger]
            reading_laws::is_cut(kept, '|', cut) && reads_stored(cut, block);
        reading_laws::lemma_cut_is_split(kept, '|', cut);
    }
}

/// White space: the characters of these codes.
pub open spec fn is_white(code: int) -> bool {
    ||| 9 <= code <= 13
    ||| code == 32
    ||| code == 0x85
    ||| code == 0xa0
    ||| code == 0x1680
    ||| 0x2000 <= code <= 0x200a
    ||| code == 0x2028
    ||| code == 0x2029
    ||| code == 0x202f
    ||| code == 0x205f
    ||| code == 0x3000
}

/// A line of white space alone.
pub open spec fn is_white_line(line: Seq<char>) -> bool {
    forall|i: int| 0 <= i < line.len() ==> is_white((#[trigger] line[i]) as int)
}

/// A line is blank exactly where it holds white space alone.
pub proof fn lemma_blank_is_white(line: Seq<char>)
    ensures
        storage::is_blank(line) <==> is_white_line(line),
{
    assert forall|i: int| 0 <= i < line.len() implies storage::is_space(#[trigger] line[i])
        == is_white(line[i] as int) by {}
    if storage::is_blank(line) {
        assert forall|i: int| 0 <= i < line.len() implies is_white((#[trigger] line[i]) as int) by {
            assert(storage::is_space(line[i]));
        }
    }
}

/// A line of a log leads from one state to the next: a blank one to the same, a stored block to the
/// one that has taken it in.
pub open spec fn leads_to(before: ForkView, line: Seq<char>, after: ForkView) -> bool {
    if is_white_line(line) {
        after == before
    } else {
        storage::stored_block(line) matches Ok(block) && {
            &&& fork_choice::spec_try_insert(
                before,
                ToyHash,
                DeterministicSampler,
                block,
            ) matches Some(answer) && answer is Ok
            &&& after == fork_choice::spec_after_insert(
                before,
                ToyHash,
                DeterministicSampler,
                block,
            )
        }
    }
}

/// What a line at fault is told: that it cannot be read and why, why its block was refused, or that
/// there is no room for it.
pub open spec fn is_fault(
    before: ForkView,
    line: Seq<char>,
    number: nat,
    error: StorageErrorView,
) -> bool {
    &&& !is_white_line(line)
    &&& match storage::stored_block(line) {
        Err(message) => error == StorageErrorView::Invalid { line: number, message },
        Ok(block) => match fork_choice::spec_try_insert(
            before,
            ToyHash,
            DeterministicSampler,
            block,
        ) {
            Some(Ok(_)) => false,
            Some(Err(refusal)) => error == StorageErrorView::Refused {
                line: number,
                error: refusal,
            },
            None => error == StorageErrorView::NoRoom { line: number },
        },
    }
}

proof fn lemma_line_effect(
    before: ForkView,
    line: Seq<char>,
    number: nat,
    after: ForkView,
    error: StorageErrorView,
)
    ensures
        storage::after_line(before, line, number) == Ok::<ForkView, StorageErrorView>(after)
            <==> leads_to(before, line, after),
        storage::after_line(before, line, number) == Err::<ForkView, StorageErrorView>(error)
            <==> is_fault(before, line, number, error),
{
    reveal(storage::after_line);
    lemma_blank_is_white(line);
}

/// States of a load: it starts from nothing, and each complete line leads from one to the next.
pub open spec fn is_load(
    config: ChainConfig,
    lines: Seq<Seq<char>>,
    states: Seq<ForkView>,
) -> bool {
    &&& states.len() > 0
    &&& states[0] == fork_choice::nothing_known(config)
    &&& states.len() <= lines.len()
    &&& forall|i: int|
        0 <= i < states.len() - 1 ==> leads_to(states[i], #[trigger] lines[i], states[i + 1])
}

proof fn lemma_lines_effect(
    config: ChainConfig,
    lines: Seq<Seq<char>>,
    states: Seq<ForkView>,
    count: nat,
)
    requires
        is_load(config, lines, states),
        count < states.len(),
    ensures
        storage::after_lines(fork_choice::nothing_known(config), lines.take(count as int)) == Ok::<
            ForkView,
            StorageErrorView,
        >(states[count as int]),
    decreases count,
{
    let part: Seq<Seq<char>> = lines.take(count as int);
    if count > 0 {
        let last: int = count - 1;
        lemma_lines_effect(config, lines, states, last as nat);
        assert(part.drop_last() =~= lines.take(last));
        assert(part.last() == lines[last]);
        assert(leads_to(states[last], lines[last], states[last + 1]));
        lemma_line_effect(
            states[last],
            lines[last],
            part.len(),
            states[last + 1],
            StorageErrorView::NoRoom { line: 0 },
        );
    } else {
        assert(part =~= Seq::<Seq<char>>::empty());
    }
}

/// A log whose complete lines all lead on loads as the last of their states. What stands behind the
/// last line end is blank, or leads on and counts as a record without its line end, or is left out.
pub proof fn lemma_load_follows_lines(
    config: ChainConfig,
    log: Seq<char>,
    lines: Seq<Seq<char>>,
    states: Seq<ForkView>,
    after: ForkView,
)
    requires
        reading_laws::is_cut(log, '\n', lines),
        is_load(config, lines, states),
        states.len() == lines.len(),
    ensures
        ({
            let last: Seq<char> = lines[lines.len() - 1];
            let reached: ForkView = states[states.len() - 1];
            let loaded: Result<(ForkView, LogTail), StorageErrorView> = storage::spec_load(
                config,
                log,
            );
            &&& loaded is Ok
            &&& is_white_line(last) ==> loaded->Ok_0 == (reached, LogTail::Clean)
            &&& !is_white_line(last) && leads_to(reached, last, after) ==> loaded->Ok_0 == (
                after,
                LogTail::Unterminated,
            )
            &&& !is_white_line(last) && (forall|other: ForkView| !leads_to(reached, last, other))
                ==> loaded->Ok_0 == (reached, LogTail::Dropped)
        }),
{
    let last: Seq<char> = lines[lines.len() - 1];
    let count: nat = (states.len() - 1) as nat;
    let reached: ForkView = states[count as int];
    reading_laws::lemma_cut_is_split(log, '\n', lines);
    lemma_lines_effect(config, lines, states, count);
    assert(lines.drop_last() =~= lines.take(count as int));
    lemma_blank_is_white(last);
    lemma_line_effect(reached, last, lines.len(), after, StorageErrorView::NoRoom { line: 0 });
    match storage::after_line(reached, last, lines.len()) {
        Ok(other) => {
            lemma_line_effect(
                reached,
                last,
                lines.len(),
                other,
                StorageErrorView::NoRoom { line: 0 },
            );
        },
        Err(_) => {},
    }
}

proof fn lemma_fault_stays(
    state: ForkView,
    lines: Seq<Seq<char>>,
    count: int,
    error: StorageErrorView,
)
    requires
        0 <= count <= lines.len(),
        storage::after_lines(state, lines.take(count)) == Err::<ForkView, StorageErrorView>(error),
    ensures
        storage::after_lines(state, lines) == Err::<ForkView, StorageErrorView>(error),
    decreases lines.len(),
{
    if count == lines.len() {
        assert(lines.take(count) =~= lines);
    } else {
        assert(lines.drop_last().take(count) =~= lines.take(count));
        lemma_fault_stays(state, lines.drop_last(), count, error);
    }
}

/// The first complete line that does not lead on keeps a log from loading, with its number, counted
/// from one, and what is wrong with it.
pub proof fn lemma_load_stops_at_fault(
    config: ChainConfig,
    log: Seq<char>,
    lines: Seq<Seq<char>>,
    states: Seq<ForkView>,
    error: StorageErrorView,
)
    requires
        reading_laws::is_cut(log, '\n', lines),
        is_load(config, lines, states),
        states.len() < lines.len(),
        is_fault(
            states[states.len() - 1],
            lines[states.len() - 1],
            states.len(),
            error,
        ),
    ensures
        storage::spec_load(config, log) == Err::<(ForkView, LogTail), StorageErrorView>(error),
{
    let count: int = states.len() as int;
    let fresh: ForkView = fork_choice::nothing_known(config);
    reading_laws::lemma_cut_is_split(log, '\n', lines);
    lemma_lines_effect(config, lines, states, (count - 1) as nat);
    lemma_line_effect(states[count - 1], lines[count - 1], count as nat, fresh, error);
    let part: Seq<Seq<char>> = lines.take(count);
    assert(part.drop_last() =~= lines.take(count - 1));
    assert(part.last() == lines[count - 1]);
    assert(storage::after_lines(fresh, part) == Err::<ForkView, StorageErrorView>(error));
    assert(lines.drop_last().take(count) =~= part);
    lemma_fault_stays(fresh, lines.drop_last(), count, error);
}

/// A log that ended in a whole record gets its line end. Any other is cut behind its last line end.
pub proof fn lemma_repair_is_exact(log: Seq<char>, tail: LogTail)
    ensures
        tail is Unterminated ==> storage::spec_repaired(log, tail) == log.push('\n'),
        !(tail is Unterminated) ==> {
            let kept: Seq<char> = storage::spec_repaired(log, tail);
            &&& kept.len() <= log.len()
            &&& kept == log.take(kept.len() as int)
            &&& kept.len() > 0 ==> kept[kept.len() - 1] == '\n'
            &&& forall|i: int| kept.len() <= i < log.len() ==> #[trigger] log[i] != '\n'
        },
{
    reveal_strlit("\n");
    assert(log + "\n"@ =~= log.push('\n'));
    lemma_complete_lines(log);
}

proof fn lemma_complete_lines(log: Seq<char>)
    ensures
        ({
            let kept: Seq<char> = storage::complete_lines(log);
            &&& kept.len() <= log.len()
            &&& kept == log.take(kept.len() as int)
            &&& kept.len() > 0 ==> kept[kept.len() - 1] == '\n'
            &&& forall|i: int| kept.len() <= i < log.len() ==> #[trigger] log[i] != '\n'
        }),
    decreases log.len(),
{
    let kept: Seq<char> = storage::complete_lines(log);
    if log.len() == 0 || log.last() == '\n' {
        assert(log.take(log.len() as int) =~= log);
    } else {
        let fewer: Seq<char> = log.drop_last();
        lemma_complete_lines(fewer);
        assert(fewer.take(kept.len() as int) =~= log.take(kept.len() as int));
        assert forall|i: int| kept.len() <= i < log.len() implies #[trigger] log[i] != '\n' by {
            if i < fewer.len() {
                assert(fewer[i] == log[i]);
            }
        }
    }
}

} // verus!
