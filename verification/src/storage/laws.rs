//! What was appended to a block log is loaded from it.

use vstd::prelude::*;

use crate::adapters::{DeterministicSampler, ToyHash};
use crate::application::chain;
use crate::application::fork_choice;
use crate::application::fork_choice::ForkView;
use crate::application::fork_laws;
use crate::application::insert_laws;
use crate::application::ChainConfig;
use crate::domain::block::BlockView;
use crate::domain::digest;
use crate::storage;
use crate::storage::{LogTail, StorageErrorView};
use crate::text;
use crate::wire::laws;
use crate::wire::message;
use crate::wire::message::MessageView;

verus! {

/// A line that stores a block: its record, or the bare block.
pub open spec fn stores(line: Seq<char>, block: BlockView) -> bool {
    ||| line == storage::record_text(block)
    ||| line == message::message_text(MessageView::Block(block))
}

/// The fields of a record hold no separator and no line end.
proof fn lemma_record_parts(block: BlockView)
    ensures
        text::none_holds(storage::record_parts(block), '|'),
        laws::every(storage::record_text(block), |c: char| !laws::is_line_end(c)),
{
    let ok = |c: char| !laws::is_line_end(c);
    let parts: Seq<Seq<char>> = storage::record_parts(block);
    let inner: Seq<Seq<char>> = message::block_parts(block);
    let body: Seq<char> = message::message_text(MessageView::Block(block));
    let checksum: Seq<char> = digest::hex_text(storage::checksum_of(body)@);
    reveal_strlit("RECORD");
    reveal_strlit("1");
    reveal_strlit("|");
    laws::lemma_hex_chars(storage::checksum_of(body)@);
    laws::lemma_block_part_chars(block);
    laws::lemma_message_is_one_line(MessageView::Block(block));
    assert(checksum == parts[2]);
    assert(laws::every(checksum, |c: char| laws::is_word_char(c)));
    laws::lemma_every_excludes(checksum, |c: char| laws::is_word_char(c), '|');
    assert forall|i: int| 0 <= i < parts.len() implies !(#[trigger] parts[i]).contains('|') by {
        if i >= 3 {
            assert(parts[i] == inner[i - 3]);
        }
    }
    let head: Seq<Seq<char>> = seq!["RECORD"@, "1"@, checksum];
    assert(head + inner =~= parts);
    text::lemma_join_append(head, inner, "|"@);
    assert forall|i: int| 0 <= i < head.len() implies laws::every(#[trigger] head[i], ok) by {
        if i == 2 {
            assert(laws::every(checksum, |c: char| laws::is_word_char(c)));
        }
    }
    laws::lemma_join_chars(head, "|"@, ok);
    assert(laws::every(body, ok));
}

/// The fields of a record: without fault, and those of the block behind the first three.
proof fn lemma_record_fields(block: BlockView)
    ensures
        text::split(message::trimmed(storage::record_text(block)), '|') == storage::record_parts(
            block,
        ),
        storage::is_record(storage::record_parts(block)),
        storage::record_fault(storage::record_parts(block)) is None,
        storage::record_parts(block).skip(3) == message::block_parts(block),
{
    let line: Seq<char> = storage::record_text(block);
    let parts: Seq<Seq<char>> = storage::record_parts(block);
    reveal_strlit("|");
    assert("|"@ =~= seq!['|']);
    lemma_record_parts(block);
    laws::lemma_line_is_trimmed(line);
    text::lemma_split_join(parts, '|');
    assert(parts.skip(3) =~= message::block_parts(block));
    laws::lemma_digest_round_trip(
        storage::checksum_of(message::message_text(MessageView::Block(block))),
    );
}

/// The fields of a bare block.
proof fn lemma_bare_block_fields(block: BlockView)
    ensures
        text::split(message::trimmed(message::message_text(MessageView::Block(block))), '|')
            == message::block_parts(block),
        !storage::is_record(message::block_parts(block)),
{
    let line: Seq<char> = message::message_text(MessageView::Block(block));
    reveal_strlit("|");
    reveal_strlit("RECORD");
    reveal_strlit("BLOCK");
    assert("|"@ =~= seq!['|']);
    laws::lemma_block_part_chars(block);
    laws::lemma_message_is_one_line(MessageView::Block(block));
    laws::lemma_line_is_trimmed(line);
    text::lemma_split_join(message::block_parts(block), '|');
    assert("RECORD"@.len() == 6 && "BLOCK"@.len() == 5);
}

/// A line that begins with a letter of a tag is not blank.
proof fn lemma_not_blank(block: BlockView)
    ensures
        !storage::is_blank(storage::record_text(block)),
        !storage::is_blank(message::message_text(MessageView::Block(block))),
{
    reveal_strlit("RECORD");
    reveal_strlit("BLOCK");
    laws::lemma_join_first(storage::record_parts(block), "|"@);
    laws::lemma_join_first(message::block_parts(block), "|"@);
    assert(storage::record_text(block)[0] == "RECORD"@[0]);
    assert(message::message_text(MessageView::Block(block))[0] == "BLOCK"@[0]);
}

/// The record of a block reads back as that block, and so does the bare block.
pub proof fn lemma_record_round_trip(block: BlockView, line: Seq<char>)
    requires
        stores(line, block),
    ensures
        storage::stored_block(line) == Ok::<BlockView, Seq<char>>(block),
        laws::every(line, |c: char| !laws::is_line_end(c)),
        !storage::is_blank(line),
{
    lemma_record_parts(block);
    laws::lemma_message_is_one_line(MessageView::Block(block));
    lemma_record_fields(block);
    lemma_bare_block_fields(block);
    lemma_not_blank(block);
    laws::lemma_block_reads_back(block);
}

/// A block log: complete lines, each with its line end, and what stands behind the last of them.
pub open spec fn log_text(lines: Seq<Seq<char>>, tail: Seq<char>) -> Seq<char> {
    text::join(lines.push(tail), "\n"@)
}

/// Appending a line and a line end to a log that ends in a line end adds that line to the log.
pub proof fn lemma_append_to_log(lines: Seq<Seq<char>>, line: Seq<char>)
    ensures
        log_text(lines.push(line), Seq::empty()) == log_text(lines, Seq::empty()) + line + "\n"@,
{
    let none: Seq<char> = Seq::empty();
    let longer: Seq<Seq<char>> = lines.push(line).push(none);
    assert(longer.drop_last() =~= lines.push(line));
    let end: Seq<char> = "\n"@;
    assert(log_text(lines.push(line), none) =~= text::join(lines.push(line), end) + end);
    if lines.len() > 0 {
        assert(lines.push(line).drop_last() =~= lines);
        assert(lines.push(none).drop_last() =~= lines);
        assert(log_text(lines, none) =~= text::join(lines, end) + end);
    } else {
        assert(log_text(lines, none) =~= none);
        assert(text::join(lines.push(line), end) =~= line);
        assert(none + line =~= line);
    }
}

/// The state after taking in the blocks one after the other, with the hash and the sampler that
/// nodes use; none where one of them is refused.
pub open spec fn after_blocks(state: ForkView, blocks: Seq<BlockView>) -> Option<ForkView> {
    insert_laws::after_inserts(state, ToyHash, DeterministicSampler, blocks)
}

/// Each line stores the block at its position.
pub open spec fn stores_all(lines: Seq<Seq<char>>, blocks: Seq<BlockView>) -> bool {
    &&& lines.len() == blocks.len()
    &&& forall|i: int| 0 <= i < lines.len() ==> stores(#[trigger] lines[i], blocks[i])
}

proof fn lemma_lines_load(state: ForkView, lines: Seq<Seq<char>>, blocks: Seq<BlockView>)
    requires
        stores_all(lines, blocks),
        after_blocks(state, blocks) is Some,
    ensures
        storage::after_lines(state, lines) == Ok::<ForkView, StorageErrorView>(
            after_blocks(state, blocks)->0,
        ),
    decreases lines.len(),
{
    if lines.len() > 0 {
        let fewer: Seq<Seq<char>> = lines.drop_last();
        assert forall|i: int| 0 <= i < fewer.len() implies stores(
            #[trigger] fewer[i],
            blocks.drop_last()[i],
        ) by {
            assert(fewer[i] == lines[i]);
        }
        lemma_lines_load(state, fewer, blocks.drop_last());
        reveal(storage::after_line);
        assert(stores(lines[lines.len() - 1], blocks[lines.len() - 1]));
        lemma_record_round_trip(blocks.last(), lines.last());
    }
}

/// The lines of a log are what a split at line ends gives.
proof fn lemma_log_lines(lines: Seq<Seq<char>>, tail: Seq<char>)
    requires
        text::none_holds(lines.push(tail), '\n'),
    ensures
        text::split(log_text(lines, tail), '\n') == lines.push(tail),
        text::split(log_text(lines, tail), '\n').drop_last() == lines,
        text::split(log_text(lines, tail), '\n').last() == tail,
{
    reveal_strlit("\n");
    assert("\n"@ =~= seq!['\n']);
    text::lemma_split_join(lines.push(tail), '\n');
    assert(lines.push(tail).drop_last() =~= lines);
}

/// Lines that store blocks hold no line end.
proof fn lemma_stored_lines(lines: Seq<Seq<char>>, blocks: Seq<BlockView>, tail: Seq<char>)
    requires
        stores_all(lines, blocks),
        !tail.contains('\n'),
    ensures
        text::none_holds(lines.push(tail), '\n'),
{
    let all: Seq<Seq<char>> = lines.push(tail);
    assert forall|i: int| 0 <= i < all.len() implies !(#[trigger] all[i]).contains('\n') by {
        if i < lines.len() {
            assert(all[i] == lines[i]);
            lemma_record_round_trip(blocks[i], lines[i]);
            laws::lemma_every_excludes(lines[i], |c: char| !laws::is_line_end(c), '\n');
        }
    }
}

/// A log of accepted blocks, recorded or bare, loads as the fork choice that accepted them.
pub proof fn lemma_log_round_trip(
    config: ChainConfig,
    lines: Seq<Seq<char>>,
    blocks: Seq<BlockView>,
)
    requires
        stores_all(lines, blocks),
        after_blocks(fork_choice::nothing_known(config), blocks) is Some,
    ensures
        storage::spec_load(config, log_text(lines, Seq::empty())) == Ok::<
            (ForkView, LogTail),
            StorageErrorView,
        >((after_blocks(fork_choice::nothing_known(config), blocks)->0, LogTail::Clean)),
{
    lemma_stored_lines(lines, blocks, Seq::empty());
    lemma_log_lines(lines, Seq::empty());
    lemma_lines_load(fork_choice::nothing_known(config), lines, blocks);
}

/// A chain that is valid from its first block and was stored block by block is loaded as the best
/// branch, whole and with nothing behind it. Its hashes must differ, none but the last may be zero,
/// and there must be room.
pub proof fn lemma_stored_chain_is_loaded(
    config: ChainConfig,
    lines: Seq<Seq<char>>,
    blocks: Seq<BlockView>,
)
    requires
        stores_all(lines, blocks),
        chain::is_valid_chain(config, ToyHash, DeterministicSampler, blocks),
        insert_laws::hashes_differ(ToyHash, blocks),
        insert_laws::parents_are_not_zero(ToyHash, blocks),
        insert_laws::chain_fits(config, blocks.len()),
    ensures
        ({
            let loaded = storage::spec_load(config, log_text(lines, Seq::empty()));
            &&& loaded is Ok
            &&& loaded->Ok_0.1 == LogTail::Clean
            &&& loaded->Ok_0.0.config == config
            &&& loaded->Ok_0.0.spec_best_chain() == blocks
            &&& loaded->Ok_0.0.spec_best_height() == blocks.len()
            &&& loaded->Ok_0.0.best_context() == chain::context_after(ToyHash, blocks)
        }),
{
    insert_laws::lemma_valid_chain_is_taken_in(config, ToyHash, DeterministicSampler, blocks);
    lemma_log_round_trip(config, lines, blocks);
}

/// A complete line that cannot be read, or whose block is refused after those before it, keeps the
/// log from loading, and is what the error names: no shorter chain is loaded in its place.
pub proof fn lemma_first_bad_record_is_fatal(
    config: ChainConfig,
    lines: Seq<Seq<char>>,
    tail: Seq<char>,
    at: int,
)
    requires
        text::none_holds(lines.push(tail), '\n'),
        0 <= at < lines.len(),
        storage::after_lines(fork_choice::nothing_known(config), lines.take(at)) is Ok,
        storage::after_line(
            storage::after_lines(fork_choice::nothing_known(config), lines.take(at))->Ok_0,
            lines[at],
            (at + 1) as nat,
        ) is Err,
    ensures
        storage::spec_load(config, log_text(lines, tail)) == Err::<
            (ForkView, LogTail),
            StorageErrorView,
        >(
            storage::after_line(
                storage::after_lines(fork_choice::nothing_known(config), lines.take(at))->Ok_0,
                lines[at],
                (at + 1) as nat,
            )->Err_0,
        ),
{
    let start: ForkView = fork_choice::nothing_known(config);
    lemma_log_lines(lines, tail);
    let upto: Seq<Seq<char>> = lines.take(at + 1);
    assert(upto.drop_last() =~= lines.take(at));
    assert(upto.last() == lines[at]);
    storage::lemma_first_fault(start, lines, at + 1);
}

proof fn lemma_lines_fail(state: ForkView, lines: Seq<Seq<char>>, blocks: Seq<BlockView>)
    requires
        stores_all(lines, blocks),
        after_blocks(state, blocks) is None,
    ensures
        storage::after_lines(state, lines) is Err,
    decreases lines.len(),
{
    let fewer: Seq<Seq<char>> = lines.drop_last();
    let before: Seq<BlockView> = blocks.drop_last();
    assert forall|i: int| 0 <= i < fewer.len() implies stores(#[trigger] fewer[i], before[i]) by {
        assert(fewer[i] == lines[i]);
    }
    if after_blocks(state, before) is None {
        lemma_lines_fail(state, fewer, before);
    } else {
        reveal(storage::after_line);
        lemma_lines_load(state, fewer, before);
        assert(stores(lines[lines.len() - 1], blocks[lines.len() - 1]));
        lemma_record_round_trip(blocks.last(), lines.last());
    }
}

/// A log of complete records loads only where every block is taken in after those before it.
pub proof fn lemma_refused_record_is_fatal(
    config: ChainConfig,
    lines: Seq<Seq<char>>,
    blocks: Seq<BlockView>,
    tail: Seq<char>,
)
    requires
        stores_all(lines, blocks),
        !tail.contains('\n'),
        after_blocks(fork_choice::nothing_known(config), blocks) is None,
    ensures
        storage::spec_load(config, log_text(lines, tail)) is Err,
{
    lemma_stored_lines(lines, blocks, tail);
    lemma_log_lines(lines, tail);
    lemma_lines_fail(fork_choice::nothing_known(config), lines, blocks);
}

/// Whatever an interrupted append left behind the last line end, the log still loads, with all its
/// complete records; what was left is used where it is a whole record and left out otherwise.
pub proof fn lemma_interrupted_append_is_harmless(
    config: ChainConfig,
    lines: Seq<Seq<char>>,
    blocks: Seq<BlockView>,
    tail: Seq<char>,
)
    requires
        stores_all(lines, blocks),
        after_blocks(fork_choice::nothing_known(config), blocks) is Some,
        !tail.contains('\n'),
    ensures
        ({
            let before: ForkView = after_blocks(fork_choice::nothing_known(config), blocks)->0;
            let loaded = storage::spec_load(config, log_text(lines, tail));
            &&& loaded is Ok
            &&& loaded->Ok_0.1 != LogTail::Unterminated ==> loaded->Ok_0.0 == before
            &&& loaded->Ok_0.1 == LogTail::Unterminated ==> storage::stored_block(tail) is Ok
                && loaded->Ok_0.0 == fork_choice::spec_after_insert(
                before,
                ToyHash,
                DeterministicSampler,
                storage::stored_block(tail)->Ok_0,
            )
            &&& storage::stored_block(tail) is Err ==> loaded->Ok_0.0 == before
        }),
{
    reveal(storage::after_line);
    lemma_stored_lines(lines, blocks, tail);
    lemma_log_lines(lines, tail);
    lemma_lines_load(fork_choice::nothing_known(config), lines, blocks);
}

/// A complete line that holds something else than a stored block keeps the log from loading.
pub proof fn lemma_corrupt_record_is_fatal(
    config: ChainConfig,
    lines: Seq<Seq<char>>,
    tail: Seq<char>,
    at: int,
)
    requires
        text::none_holds(lines.push(tail), '\n'),
        0 <= at < lines.len(),
        !storage::is_blank(lines[at]),
        storage::stored_block(lines[at]) is Err,
    ensures
        storage::spec_load(config, log_text(lines, tail)) is Err,
{
    let start: ForkView = fork_choice::nothing_known(config);
    lemma_log_lines(lines, tail);
    let upto: Seq<Seq<char>> = lines.take(at + 1);
    assert(upto.drop_last() =~= lines.take(at));
    assert(upto.last() == lines[at]);
    reveal(storage::after_line);
    assert(storage::after_lines(start, upto) is Err);
    storage::lemma_first_fault(start, lines, at + 1);
}

/// One line of a log keeps every known block an accepted one.
proof fn lemma_line_keeps_blocks_accepted(state: ForkView, line: Seq<char>, number: nat)
    requires
        state.is_consistent(),
        fork_laws::all_accepted(state, ToyHash, DeterministicSampler),
        storage::after_line(state, line, number) is Ok,
    ensures
        storage::after_line(state, line, number)->Ok_0.is_consistent(),
        storage::after_line(state, line, number)->Ok_0.config == state.config,
        fork_laws::all_accepted(
            storage::after_line(state, line, number)->Ok_0,
            ToyHash,
            DeterministicSampler,
        ),
{
    reveal(storage::after_line);
    if !storage::is_blank(line) {
        let block: BlockView = storage::stored_block(line)->Ok_0;
        fork_laws::lemma_insert_keeps_consistency(state, ToyHash, DeterministicSampler, block);
        fork_laws::lemma_insert_keeps_blocks_accepted(state, ToyHash, DeterministicSampler, block);
    }
}

proof fn lemma_lines_keep_blocks_accepted(state: ForkView, lines: Seq<Seq<char>>)
    requires
        state.is_consistent(),
        fork_laws::all_accepted(state, ToyHash, DeterministicSampler),
        storage::after_lines(state, lines) is Ok,
    ensures
        storage::after_lines(state, lines)->Ok_0.is_consistent(),
        storage::after_lines(state, lines)->Ok_0.config == state.config,
        fork_laws::all_accepted(
            storage::after_lines(state, lines)->Ok_0,
            ToyHash,
            DeterministicSampler,
        ),
    decreases lines.len(),
{
    if lines.len() > 0 {
        lemma_lines_keep_blocks_accepted(state, lines.drop_last());
        let before: ForkView = storage::after_lines(state, lines.drop_last())->Ok_0;
        lemma_line_keeps_blocks_accepted(before, lines.last(), lines.len());
    }
}

/// Whatever a log holds, every block that is loaded from it was accepted after its parent.
pub proof fn lemma_loaded_blocks_are_accepted(config: ChainConfig, log: Seq<char>)
    requires
        storage::spec_load(config, log) is Ok,
    ensures
        storage::spec_load(config, log)->Ok_0.0.is_consistent(),
        storage::spec_load(config, log)->Ok_0.0.config == config,
        fork_laws::all_accepted(
            storage::spec_load(config, log)->Ok_0.0,
            ToyHash,
            DeterministicSampler,
        ),
{
    let lines: Seq<Seq<char>> = text::split(log, '\n');
    let start: ForkView = fork_choice::nothing_known(config);
    lemma_lines_keep_blocks_accepted(start, lines.drop_last());
    let before: ForkView = storage::after_lines(start, lines.drop_last())->Ok_0;
    if storage::after_line(before, lines.last(), lines.len()) is Ok {
        lemma_line_keeps_blocks_accepted(before, lines.last(), lines.len());
    }
}

/// The lines of the complete part of a log.
proof fn lemma_complete_lines(log: Seq<char>)
    ensures
        text::split(storage::complete_lines(log), '\n') == text::split(log, '\n').drop_last().push(
            Seq::empty(),
        ),
    decreases log.len(),
{
    let lines: Seq<Seq<char>> = text::split(log, '\n');
    if log.len() == 0 || log.last() == '\n' {
        text::lemma_split_nonempty(log, '\n');
        assert(lines.last() =~= Seq::<char>::empty());
        assert(lines.drop_last().push(Seq::empty()) =~= lines);
    } else {
        lemma_complete_lines(log.drop_last());
        assert(lines.drop_last() =~= text::split(log.drop_last(), '\n').drop_last());
    }
}

/// The lines of a repaired log: complete ones, and nothing behind them.
proof fn lemma_repaired_lines(log: Seq<char>, tail: LogTail)
    ensures
        text::split(storage::spec_repaired(log, tail), '\n') == (if tail == LogTail::Unterminated {
            text::split(log, '\n')
        } else {
            text::split(log, '\n').drop_last()
        }).push(Seq::empty()),
{
    reveal_strlit("\n");
    if tail == LogTail::Unterminated {
        assert((log + "\n"@).drop_last() =~= log);
        assert((log + "\n"@).last() == '\n');
    } else {
        lemma_complete_lines(log);
    }
}

/// A log that loads still loads once it has been repaired, with the same blocks and nothing left
/// behind its last line end.
pub proof fn lemma_repaired_log_loads(config: ChainConfig, log: Seq<char>)
    requires
        storage::spec_load(config, log) is Ok,
    ensures
        ({
            let (forks, tail) = storage::spec_load(config, log)->Ok_0;
            storage::spec_load(config, storage::spec_repaired(log, tail)) == Ok::<
                (ForkView, LogTail),
                StorageErrorView,
            >((forks, LogTail::Clean))
        }),
{
    let (forks, tail) = storage::spec_load(config, log)->Ok_0;
    let lines: Seq<Seq<char>> = text::split(log, '\n');
    let whole: Seq<char> = storage::spec_repaired(log, tail);
    text::lemma_split_nonempty(log, '\n');
    lemma_repaired_lines(log, tail);
    let complete: Seq<Seq<char>> = if tail == LogTail::Unterminated {
        lines
    } else {
        lines.drop_last()
    };
    assert(text::split(whole, '\n').drop_last() =~= complete);
    assert(text::split(whole, '\n').last() =~= Seq::<char>::empty());
}

/// The lines of a repaired log with one more line behind it.
proof fn lemma_appended_lines(log: Seq<char>, tail: LogTail, line: Seq<char>)
    requires
        !line.contains('\n'),
    ensures
        ({
            let whole: Seq<char> = storage::spec_repaired(log, tail);
            let lines: Seq<Seq<char>> = text::split(whole + line + "\n"@, '\n');
            &&& lines.drop_last() == text::split(whole, '\n').drop_last().push(line)
            &&& lines.last() == Seq::<char>::empty()
        }),
{
    let whole: Seq<char> = storage::spec_repaired(log, tail);
    reveal_strlit("\n");
    lemma_repaired_lines(log, tail);
    text::lemma_split_append(whole, line, '\n');
    assert(Seq::<char>::empty() + line =~= line);
    let longer: Seq<char> = whole + line + "\n"@;
    assert(longer.drop_last() =~= whole + line);
    let lines: Seq<Seq<char>> = text::split(longer, '\n');
    assert(lines.drop_last() =~= text::split(whole + line, '\n'));
}

/// A complete line that stores an acceptable block loads as one more block.
proof fn lemma_stored_line_loads(
    state: ForkView,
    lines: Seq<Seq<char>>,
    before: ForkView,
    line: Seq<char>,
    block: BlockView,
)
    requires
        storage::after_lines(state, lines) == Ok::<ForkView, StorageErrorView>(before),
        stores(line, block),
        fork_choice::spec_try_insert(before, ToyHash, DeterministicSampler, block) matches Some(
            Ok(_),
        ),
    ensures
        storage::after_lines(state, lines.push(line)) == Ok::<ForkView, StorageErrorView>(
            fork_choice::spec_after_insert(before, ToyHash, DeterministicSampler, block),
        ),
{
    reveal(storage::after_line);
    lemma_record_round_trip(block, line);
    assert(lines.push(line).drop_last() =~= lines);
}

/// A block that is stored behind a repaired log is loaded on top of what the log held.
pub proof fn lemma_append_after_repair(
    config: ChainConfig,
    log: Seq<char>,
    line: Seq<char>,
    block: BlockView,
)
    requires
        storage::spec_load(config, log) is Ok,
        stores(line, block),
        fork_choice::spec_try_insert(
            storage::spec_load(config, log)->Ok_0.0,
            ToyHash,
            DeterministicSampler,
            block,
        ) matches Some(Ok(_)),
    ensures
        ({
            let (forks, tail) = storage::spec_load(config, log)->Ok_0;
            storage::spec_load(config, storage::spec_repaired(log, tail) + line + "\n"@) == Ok::<
                (ForkView, LogTail),
                StorageErrorView,
            >(
                (
                    fork_choice::spec_after_insert(forks, ToyHash, DeterministicSampler, block),
                    LogTail::Clean,
                ),
            )
        }),
{
    let (forks, tail) = storage::spec_load(config, log)->Ok_0;
    let whole: Seq<char> = storage::spec_repaired(log, tail);
    let lines: Seq<Seq<char>> = text::split(whole, '\n');
    lemma_record_round_trip(block, line);
    laws::lemma_every_excludes(line, |c: char| !laws::is_line_end(c), '\n');
    lemma_appended_lines(log, tail, line);
    assert(storage::after_lines(fork_choice::nothing_known(config), lines.drop_last()) == Ok::<
        ForkView,
        StorageErrorView,
    >(forks)) by {
        lemma_repaired_log_loads(config, log);
        lemma_repaired_lines(log, tail);
    }
    lemma_stored_line_loads(
        fork_choice::nothing_known(config),
        lines.drop_last(),
        forks,
        line,
        block,
    );
}

} // verus!
