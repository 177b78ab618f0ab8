//! The block log: records of accepted blocks, one to a line.

pub mod format_laws;
pub mod laws;

use vstd::prelude::*;

use crate::adapters;
use crate::adapters::{DeterministicSampler, ToyHash};
use crate::application::fork_choice;
use crate::application::fork_choice::ForkView;
use crate::application::{ChainConfig, ForkChoiceError, ForkChoiceState};
use crate::domain::block::BlockView;
use crate::domain::digest;
use crate::domain::{Block, Digest};
use crate::ports::HashPort;
use crate::text;
use crate::wire::fields;
use crate::wire::message;
use crate::wire::message::{MessageView, PeerMessage};

verus! {

/// The checksum of the text of a record's body.
pub open spec fn checksum_of(body: Seq<char>) -> Digest {
    adapters::spec_toy_digest(vstd::utf8::encode_utf8(body))
}

/// The fields of a record: a tag, a version and a checksum before those of the block.
pub open spec fn record_parts(block: BlockView) -> Seq<Seq<char>> {
    seq![
        "RECORD"@,
        "1"@,
        digest::hex_text(checksum_of(message::message_text(MessageView::Block(block)))@),
    ] + message::block_parts(block)
}

/// The text of a record.
pub open spec fn record_text(block: BlockView) -> Seq<char> {
    text::join(record_parts(block), "|"@)
}

/// What reading the fields of a message that must be a block gives.
pub open spec fn only_block(result: Result<MessageView, Seq<char>>) -> Result<
    BlockView,
    Seq<char>,
> {
    match result {
        Ok(MessageView::Block(block)) => Ok(block),
        Ok(_) => Err("expected a BLOCK message"@),
        Err(message) => Err(message),
    }
}

/// A stored line is a record, not a bare block.
pub open spec fn is_record(parts: Seq<Seq<char>>) -> bool {
    parts.len() > 0 && parts[0] == "RECORD"@
}

/// What is wrong with a record before its block: its shape, its version or its checksum.
pub open spec fn record_fault(parts: Seq<Seq<char>>) -> Option<Seq<char>> {
    let checksum = digest::spec_from_hex(parts[2]);
    if parts.len() < 4 {
        Some("record requires a version, a checksum and a block"@)
    } else if parts[1] != "1"@ {
        Some("unknown record version '"@ + parts[1] + "'"@)
    } else if checksum is Err {
        Some(checksum->Err_0)
    } else if checksum->Ok_0 != checksum_of(text::join(parts.skip(3), "|"@)) {
        Some("record checksum does not match"@)
    } else {
        None
    }
}

/// What reading the fields of a stored line gives: of a record without fault, or of a bare block.
pub open spec fn stored_block_of(parts: Seq<Seq<char>>) -> Result<BlockView, Seq<char>> {
    let block: Seq<Seq<char>> = if is_record(parts) {
        parts.skip(3)
    } else {
        parts
    };
    if is_record(parts) && record_fault(parts) is Some {
        Err(record_fault(parts)->0)
    } else {
        only_block(message::message_of(block))
    }
}

/// What reading a stored line gives.
pub open spec fn stored_block(line: Seq<char>) -> Result<BlockView, Seq<char>> {
    stored_block_of(text::split(message::trimmed(line), '|'))
}

/// Whether a character is white space.
pub open spec fn is_space(c: char) -> bool {
    ||| '\u{9}' <= c <= '\u{d}'
    ||| c == ' '
    ||| c == '\u{85}'
    ||| c == '\u{a0}'
    ||| c == '\u{1680}'
    ||| '\u{2000}' <= c <= '\u{200a}'
    ||| c == '\u{2028}'
    ||| c == '\u{2029}'
    ||| c == '\u{202f}'
    ||| c == '\u{205f}'
    ||| c == '\u{3000}'
}

/// Whether a line holds white space alone.
pub open spec fn is_blank(line: Seq<char>) -> bool {
    forall|i: int| 0 <= i < line.len() ==> is_space(#[trigger] line[i])
}

/// Why a block log could not be loaded.
#[derive(Debug, PartialEq, Eq)]
pub enum StorageError {
    /// A line could not be read.
    Invalid { line: usize, message: String },
    /// A stored block was refused.
    Refused { line: usize, error: ForkChoiceError },
    /// A stored block would not fit into the chain.
    NoRoom { line: usize },
}

/// What is wrong with a block log.
pub enum StorageErrorView {
    Invalid { line: nat, message: Seq<char> },
    Refused { line: nat, error: ForkChoiceError },
    NoRoom { line: nat },
}

impl View for StorageError {
    type V = StorageErrorView;

    open spec fn view(&self) -> StorageErrorView {
        match self {
            StorageError::Invalid { line, message } => StorageErrorView::Invalid {
                line: *line as nat,
                message: message@,
            },
            StorageError::Refused { line, error } => StorageErrorView::Refused {
                line: *line as nat,
                error: *error,
            },
            StorageError::NoRoom { line } => StorageErrorView::NoRoom { line: *line as nat },
        }
    }
}

/// How the last line of a block log ended.
#[derive(Clone, Copy, Debug, PartialEq, Eq, Structural)]
pub enum LogTail {
    /// Behind a line end.
    Clean,
    /// With a whole record that lacks its line end.
    Unterminated,
    /// With part of a record, which was left out.
    Dropped,
}

/// The state after one complete line of a block log, or why it is at fault. Lines are counted from
/// one.
#[verifier::opaque]
pub open spec fn after_line(state: ForkView, line: Seq<char>, number: nat) -> Result<
    ForkView,
    StorageErrorView,
> {
    if is_blank(line) {
        Ok(state)
    } else {
        match stored_block(line) {
            Ok(block) => match fork_choice::spec_try_insert(
                state,
                ToyHash,
                DeterministicSampler,
                block,
            ) {
                Some(Ok(_)) => Ok(
                    fork_choice::spec_after_insert(state, ToyHash, DeterministicSampler, block),
                ),
                Some(Err(error)) => Err(StorageErrorView::Refused { line: number, error }),
                None => Err(StorageErrorView::NoRoom { line: number }),
            },
            Err(message) => Err(StorageErrorView::Invalid { line: number, message }),
        }
    }
}

/// The state after the complete lines of a block log, or the first fault.
pub open spec fn after_lines(state: ForkView, lines: Seq<Seq<char>>) -> Result<
    ForkView,
    StorageErrorView,
>
    decreases lines.len(),
{
    if lines.len() == 0 {
        Ok(state)
    } else {
        match after_lines(state, lines.drop_last()) {
            Ok(before) => after_line(before, lines.last(), lines.len()),
            Err(error) => Err(error),
        }
    }
}

/// The state after a last line without a line end: one that cannot be used is left out.
pub open spec fn after_tail(state: ForkView, line: Seq<char>, number: nat) -> (ForkView, LogTail) {
    if is_blank(line) {
        (state, LogTail::Clean)
    } else {
        match after_line(state, line, number) {
            Ok(after) => (after, LogTail::Unterminated),
            Err(_) => (state, LogTail::Dropped),
        }
    }
}

/// What loading a block log gives.
pub open spec fn spec_load(config: ChainConfig, log: Seq<char>) -> Result<
    (ForkView, LogTail),
    StorageErrorView,
> {
    let lines: Seq<Seq<char>> = text::split(log, '\n');
    match after_lines(fork_choice::nothing_known(config), lines.drop_last()) {
        Ok(state) => Ok(after_tail(state, lines.last(), lines.len())),
        Err(error) => Err(error),
    }
}

/// The complete lines of a log: up to and with the last line end.
pub open spec fn complete_lines(log: Seq<char>) -> Seq<char>
    decreases log.len(),
{
    if log.len() == 0 || log.last() == '\n' {
        log
    } else {
        complete_lines(log.drop_last())
    }
}

/// The log to append to, once it has been loaded: a whole last record gets its line end, and
/// anything else behind the last line end goes.
pub open spec fn spec_repaired(log: Seq<char>, tail: LogTail) -> Seq<char> {
    if tail == LogTail::Unterminated {
        log + "\n"@
    } else {
        complete_lines(log)
    }
}

/// The log to append to, once it has been loaded.
pub fn repaired(log: &str, tail: LogTail) -> (whole: String)
    ensures
        whole@ == spec_repaired(log@, tail),
{
    if let LogTail::Unterminated = tail {
        let mut whole: String = log.to_string();
        whole.append("\n");
        return whole;
    }
    let chars: Vec<char> = text::chars_of(log);
    let mut kept: usize = chars.len();
    assert(log@.take(kept as int) =~= log@);
    while kept > 0 && chars[kept - 1] != '\n'
        invariant
            kept <= chars@.len(),
            chars@ == log@,
            complete_lines(log@) == complete_lines(log@.take(kept as int)),
        decreases kept,
    {
        assert(log@.take(kept as int).drop_last() =~= log@.take(kept - 1));
        kept -= 1;
    }
    text::string_of(vstd::slice::slice_subrange(chars.as_slice(), 0, kept))
}

/// The record of a block, as a line without its line end.
pub fn encode_record(block: &Block) -> (line: String)
    ensures
        line@ == record_text(block@),
{
    let body: String = message::encode_block_message(block);
    let checksum: Digest = ToyHash.digest(body.as_str().as_bytes());
    let mut parts: Vec<String> = Vec::new();
    parts.push("RECORD".to_string());
    parts.push("1".to_string());
    parts.push(checksum.to_hex());
    let ghost head: Seq<Seq<char>> = text::string_views(parts@);
    let front: String = text::join_strings(parts.as_slice(), "|");
    proof {
        assert(head + message::block_parts(block@) =~= record_parts(block@));
        text::lemma_join_append(head, message::block_parts(block@), "|"@);
    }
    text::concat3(front.as_str(), "|", body.as_str())
}

fn expect_block(result: Result<PeerMessage, String>) -> (block: Result<Block, String>)
    ensures
        forall|expected: Result<MessageView, Seq<char>>| #[trigger]
            message::stands_for(result, expected) ==> is_block_result(block, only_block(expected)),
{
    match result {
        Ok(PeerMessage::Block(block)) => Ok(*block),
        Ok(_) => Err("expected a BLOCK message".to_string()),
        Err(message) => Err(message),
    }
}

/// An executable result stands for a result over views.
pub open spec fn is_block_result(result: Result<Block, String>, expected: Result<
    BlockView,
    Seq<char>,
>) -> bool {
    match result {
        Ok(block) => expected == Ok::<BlockView, Seq<char>>(block@),
        Err(message) => expected == Err::<BlockView, Seq<char>>(message@),
    }
}

/// Reads a stored line.
pub fn decode_record(line: &str) -> (result: Result<Block, String>)
    ensures
        is_block_result(result, stored_block(line@)),
{
    let chars: Vec<char> = message::trim_line_end(line);
    let parts: Vec<Vec<char>> = text::split_chars(chars.as_slice(), '|');
    let ghost texts: Seq<Seq<char>> = text::contents(parts@);
    assert(texts[0] == parts@[0]@);
    if !text::spells(parts[0].as_slice(), "RECORD") {
        return expect_block(message::decode_fields(parts.as_slice()));
    }
    if parts.len() < 4 {
        return Err("record requires a version, a checksum and a block".to_string());
    }
    assert(forall|i: int| 0 <= i < 4 ==> #[trigger] texts[i] == parts@[i]@);
    if !text::spells(parts[1].as_slice(), "1") {
        let version: String = text::string_of(parts[1].as_slice());
        return Err(text::concat3("unknown record version '", version.as_str(), "'"));
    }
    let checksum: Digest = match fields::parse_digest(parts[2].as_slice()) {
        Ok(value) => value,
        Err(message) => return Err(message),
    };
    let body: &[Vec<char>] = vstd::slice::slice_subrange(parts.as_slice(), 3, parts.len());
    assert(text::contents(body@) =~= texts.skip(3));
    let joined: String = text::join_chars(body, "|");
    if checksum != ToyHash.digest(joined.as_str().as_bytes()) {
        return Err("record checksum does not match".to_string());
    }
    expect_block(message::decode_fields(body))
}

/// Whether a line holds white space alone.
pub fn blank(line: &[char]) -> (blank: bool)
    ensures
        blank == is_blank(line@),
{
    let mut index: usize = 0;
    while index < line.len()
        invariant
            index <= line@.len(),
            forall|i: int| 0 <= i < index ==> is_space(#[trigger] line@[i]),
        decreases line@.len() - index,
    {
        let c: char = line[index];
        let space: bool = ('\u{9}' <= c && c <= '\u{d}') || c == ' ' || c == '\u{85}' || c
            == '\u{a0}' || c == '\u{1680}' || ('\u{2000}' <= c && c <= '\u{200a}') || c
            == '\u{2028}' || c == '\u{2029}' || c == '\u{202f}' || c == '\u{205f}' || c
            == '\u{3000}';
        if !space {
            assert(!is_space(line@[index as int]));
            return false;
        }
        index += 1;
    }
    true
}

/// Takes in the block of one line that is not blank.
fn load_line(state: &mut ForkChoiceState, line: &[char], number: usize) -> (result: Result<
    (),
    StorageError,
>)
    requires
        old(state).wf(),
        !is_blank(line@),
    ensures
        final(state).wf(),
        match result {
            Ok(()) => after_line(old(state)@, line@, number as nat) == Ok::<
                ForkView,
                StorageErrorView,
            >(final(state)@),
            Err(error) => after_line(old(state)@, line@, number as nat) == Err::<
                ForkView,
                StorageErrorView,
            >(error@) && final(state)@ == old(state)@,
        },
{
    reveal(after_line);
    let held: String = text::string_of(line);
    let block: Block = match decode_record(held.as_str()) {
        Ok(block) => block,
        Err(message) => return Err(StorageError::Invalid { line: number, message }),
    };
    match state.try_insert_block(&ToyHash, &DeterministicSampler, block) {
        Some(Ok(_)) => Ok(()),
        Some(Err(error)) => Err(StorageError::Refused { line: number, error }),
        None => Err(StorageError::NoRoom { line: number }),
    }
}

/// A fault in one of the first lines is the fault of the whole log.
pub proof fn lemma_first_fault(state: ForkView, lines: Seq<Seq<char>>, count: int)
    requires
        0 <= count <= lines.len(),
        after_lines(state, lines.take(count)) is Err,
    ensures
        after_lines(state, lines) == after_lines(state, lines.take(count)),
    decreases lines.len(),
{
    if count == lines.len() {
        assert(lines.take(count) =~= lines);
    } else {
        assert(lines.drop_last().take(count) =~= lines.take(count));
        lemma_first_fault(state, lines.drop_last(), count);
    }
}

/// Loads a block log: every complete line must hold a record whose block is accepted, and a last
/// line without a line end is used where it can be.
pub fn load_chain(config: ChainConfig, log: &str) -> (result: Result<
    (ForkChoiceState, LogTail),
    StorageError,
>)
    ensures
        match result {
            Ok((state, tail)) => state.wf() && spec_load(config, log@) == Ok::<
                (ForkView, LogTail),
                StorageErrorView,
            >((state@, tail)),
            Err(error) => spec_load(config, log@) == Err::<(ForkView, LogTail), StorageErrorView>(
                error@,
            ),
        },
{
    let chars: Vec<char> = text::chars_of(log);
    let lines: Vec<Vec<char>> = text::split_chars(chars.as_slice(), '\n');
    let ghost texts: Seq<Seq<char>> = text::contents(lines@);
    let last: usize = lines.len() - 1;
    let mut state: ForkChoiceState = ForkChoiceState::new(config);
    let mut index: usize = 0;
    assert(texts.drop_last().take(0) =~= Seq::<Seq<char>>::empty());
    while index < last
        invariant
            index <= last,
            last + 1 == lines@.len(),
            texts == text::contents(lines@),
            texts == text::split(log@, '\n'),
            state.wf(),
            after_lines(
                fork_choice::nothing_known(config),
                texts.drop_last().take(index as int),
            ) == Ok::<ForkView, StorageErrorView>(state@),
        decreases last - index,
    {
        let ghost complete: Seq<Seq<char>> = texts.drop_last();
        assert(complete.take(index + 1).drop_last() =~= complete.take(index as int));
        assert(complete[index as int] == lines@[index as int]@);
        proof {
            reveal(after_line);
        }
        if !blank(lines[index].as_slice()) {
            match load_line(&mut state, lines[index].as_slice(), index + 1) {
                Ok(()) => {},
                Err(error) => {
                    proof {
                        lemma_first_fault(fork_choice::nothing_known(config), complete, index + 1);
                    }
                    return Err(error);
                },
            }
        }
        index += 1;
    }
    assert(texts.drop_last().take(index as int) =~= texts.drop_last());
    assert(texts.last() == lines@[last as int]@);
    if blank(lines[last].as_slice()) {
        return Ok((state, LogTail::Clean));
    }
    match load_line(&mut state, lines[last].as_slice(), last + 1) {
        Ok(()) => Ok((state, LogTail::Unterminated)),
        Err(_) => Ok((state, LogTail::Dropped)),
    }
}

} // verus!
