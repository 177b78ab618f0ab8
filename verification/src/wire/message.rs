//! Messages, one to a line.

use vstd::prelude::*;

use crate::decimal;
use crate::domain::block::{BlockView, TraceView};
use crate::domain::digest;
use crate::domain::{Block, BlockHeader, Digest, ModelState, TraceEntry, TrainingTrace};
use crate::text;
use crate::wire::fields;

verus! {

/// What peers tell each other.
#[derive(Debug, PartialEq, Eq)]
pub enum PeerMessage {
    /// Who speaks, and where that node's chain stands.
    Hello { node_id: String, height: u64, head: Digest },
    /// A block.
    Block(Box<Block>),
    /// A request for blocks of the best chain from a height on.
    GetBlocks { from_height: u64, limit: usize },
    /// A request for the blocks behind the first of these hashes that is on the best chain.
    Locate { hashes: Vec<Digest>, limit: usize },
    /// The end of a list of blocks.
    EndBlocks,
    /// An address at which the speaker can be reached.
    Peer { addr: String },
}

/// What a message says.
pub enum MessageView {
    Hello { node_id: Seq<char>, height: u64, head: Digest },
    Block(BlockView),
    GetBlocks { from_height: u64, limit: usize },
    Locate { hashes: Seq<Digest>, limit: usize },
    EndBlocks,
    Peer { addr: Seq<char> },
}

impl View for PeerMessage {
    type V = MessageView;

    open spec fn view(&self) -> MessageView {
        match self {
            PeerMessage::Hello { node_id, height, head } => MessageView::Hello {
                node_id: node_id@,
                height: *height,
                head: *head,
            },
            PeerMessage::Block(block) => MessageView::Block(block@),
            PeerMessage::GetBlocks { from_height, limit } => MessageView::GetBlocks {
                from_height: *from_height,
                limit: *limit,
            },
            PeerMessage::Locate { hashes, limit } => MessageView::Locate {
                hashes: hashes@,
                limit: *limit,
            },
            PeerMessage::EndBlocks => MessageView::EndBlocks,
            PeerMessage::Peer { addr } => MessageView::Peer { addr: addr@ },
        }
    }
}

impl Clone for PeerMessage {
    fn clone(&self) -> (copy: Self)
        ensures
            copy@ == self@,
    {
        match self {
            PeerMessage::Hello { node_id, height, head } => PeerMessage::Hello {
                node_id: node_id.clone(),
                height: *height,
                head: *head,
            },
            PeerMessage::Block(block) => {
                let copied: Block = (**block).clone();
                PeerMessage::Block(Box::new(copied))
            },
            PeerMessage::GetBlocks { from_height, limit } => PeerMessage::GetBlocks {
                from_height: *from_height,
                limit: *limit,
            },
            PeerMessage::Locate { hashes, limit } => {
                let copied: Vec<Digest> = hashes.clone();
                assert(copied@ =~= hashes@);
                PeerMessage::Locate { hashes: copied, limit: *limit }
            },
            PeerMessage::EndBlocks => PeerMessage::EndBlocks,
            PeerMessage::Peer { addr } => PeerMessage::Peer { addr: addr.clone() },
        }
    }
}

/// The fields of a block message.
pub open spec fn block_parts(block: BlockView) -> Seq<Seq<char>> {
    seq![
        "BLOCK"@,
        decimal::int_text(block.header.height as int),
        digest::hex_text(block.header.previous_block@),
        fields::model_text(block.header.model_before),
        fields::model_text(block.header.model_after),
        digest::hex_text(block.header.trace_root@),
        decimal::int_text(block.header.training_seed as int),
        decimal::int_text(block.header.sampling_entropy as int),
        decimal::int_text(block.header.sample_count as int),
        decimal::int_text(block.header.nonce as int),
        fields::model_text(block.trace.initial_model),
        fields::model_text(block.trace.candidate_model),
        digest::hex_text(block.trace.root@),
        fields::entries_text(block.trace.entries),
    ]
}

/// The hexadecimal texts of digests.
pub open spec fn hash_texts(hashes: Seq<Digest>) -> Seq<Seq<char>> {
    hashes.map_values(|hash: Digest| digest::hex_text(hash@))
}

/// The fields of a message.
pub open spec fn message_parts(message: MessageView) -> Seq<Seq<char>> {
    match message {
        MessageView::Hello { node_id, height, head } => seq![
            "HELLO"@,
            fields::escaped(node_id),
            decimal::int_text(height as int),
            digest::hex_text(head@),
        ],
        MessageView::Block(block) => block_parts(block),
        MessageView::GetBlocks { from_height, limit } => seq![
            "GETBLOCKS"@,
            decimal::int_text(from_height as int),
            decimal::int_text(limit as int),
        ],
        MessageView::Locate { hashes, limit } => seq![
            "LOCATE"@,
            decimal::int_text(limit as int),
            text::join(hash_texts(hashes), ","@),
        ],
        MessageView::EndBlocks => seq!["ENDBLOCKS"@],
        MessageView::Peer { addr } => seq!["PEER"@, fields::escaped(addr)],
    }
}

/// The text of a message: its fields, with a bar between neighbours.
pub open spec fn message_text(message: MessageView) -> Seq<char> {
    text::join(message_parts(message), "|"@)
}

/// A line without the line ends behind it.
pub open spec fn trimmed(line: Seq<char>) -> Seq<char>
    decreases line.len(),
{
    if line.len() > 0 && (line.last() == '\r' || line.last() == '\n') {
        trimmed(line.drop_last())
    } else {
        line
    }
}

/// What reading the fields of a greeting gives.
pub open spec fn hello_of(parts: Seq<Seq<char>>) -> Result<MessageView, Seq<char>> {
    let node_id = fields::text_field(parts[1]);
    let height = fields::unsigned_field(parts[2], u64::MAX as nat, "height"@);
    let head = digest::spec_from_hex(parts[3]);
    if parts.len() != 4 {
        Err("HELLO requires 3 fields"@)
    } else if node_id is Err {
        Err(node_id->Err_0)
    } else if height is Err {
        Err(height->Err_0)
    } else if head is Err {
        Err(head->Err_0)
    } else {
        Ok(
            MessageView::Hello {
                node_id: node_id->Ok_0,
                height: height->Ok_0 as u64,
                head: head->Ok_0,
            },
        )
    }
}

/// What reading the header fields of a block gives: the header, or the complaint about its first
/// bad field.
pub open spec fn header_of(parts: Seq<Seq<char>>) -> Result<BlockHeader, Seq<char>> {
    let height = fields::unsigned_field(parts[1], u64::MAX as nat, "height"@);
    let previous_block = digest::spec_from_hex(parts[2]);
    let model_before = fields::model_field(parts[3]);
    let model_after = fields::model_field(parts[4]);
    let trace_root = digest::spec_from_hex(parts[5]);
    let training_seed = fields::unsigned_field(parts[6], u64::MAX as nat, "training_seed"@);
    let sampling_entropy = fields::unsigned_field(parts[7], u64::MAX as nat, "sampling_entropy"@);
    let sample_count = fields::unsigned_field(parts[8], usize::MAX as nat, "sample_count"@);
    let nonce = fields::unsigned_field(parts[9], u64::MAX as nat, "nonce"@);
    if height is Err {
        Err(height->Err_0)
    } else if previous_block is Err {
        Err(previous_block->Err_0)
    } else if model_before is Err {
        Err(model_before->Err_0)
    } else if model_after is Err {
        Err(model_after->Err_0)
    } else if trace_root is Err {
        Err(trace_root->Err_0)
    } else if training_seed is Err {
        Err(training_seed->Err_0)
    } else if sampling_entropy is Err {
        Err(sampling_entropy->Err_0)
    } else if sample_count is Err {
        Err(sample_count->Err_0)
    } else if nonce is Err {
        Err(nonce->Err_0)
    } else {
        Ok(
            BlockHeader {
                height: height->Ok_0 as u64,
                previous_block: previous_block->Ok_0,
                model_before: model_before->Ok_0,
                model_after: model_after->Ok_0,
                trace_root: trace_root->Ok_0,
                training_seed: training_seed->Ok_0 as u64,
                sampling_entropy: sampling_entropy->Ok_0 as u64,
                sample_count: sample_count->Ok_0 as usize,
                nonce: nonce->Ok_0 as u64,
            },
        )
    }
}

/// What reading the fields of a block gives: the header first, then the entries of the trace, then
/// the rest of the trace.
#[verifier::opaque]
pub open spec fn block_of(parts: Seq<Seq<char>>) -> Result<BlockView, Seq<char>> {
    let header = header_of(parts);
    let entries = fields::entries_field(parts[13]);
    let initial_model = fields::model_field(parts[10]);
    let candidate_model = fields::model_field(parts[11]);
    let root = digest::spec_from_hex(parts[12]);
    if parts.len() != 14 {
        Err("BLOCK requires 13 fields"@)
    } else if header is Err {
        Err(header->Err_0)
    } else if entries is Err {
        Err(entries->Err_0)
    } else if initial_model is Err {
        Err(initial_model->Err_0)
    } else if candidate_model is Err {
        Err(candidate_model->Err_0)
    } else if root is Err {
        Err(root->Err_0)
    } else {
        Ok(
            BlockView {
                header: header->Ok_0,
                trace: TraceView {
                    initial_model: initial_model->Ok_0,
                    candidate_model: candidate_model->Ok_0,
                    entries: entries->Ok_0,
                    root: root->Ok_0,
                },
            },
        )
    }
}

/// What reading the fields of a request by height gives.
pub open spec fn get_blocks_of(parts: Seq<Seq<char>>) -> Result<MessageView, Seq<char>> {
    let from_height = fields::unsigned_field(parts[1], u64::MAX as nat, "from_height"@);
    let limit = fields::unsigned_field(parts[2], usize::MAX as nat, "limit"@);
    if parts.len() != 3 {
        Err("GETBLOCKS requires 2 fields"@)
    } else if from_height is Err {
        Err(from_height->Err_0)
    } else if limit is Err {
        Err(limit->Err_0)
    } else {
        Ok(
            MessageView::GetBlocks {
                from_height: from_height->Ok_0 as u64,
                limit: limit->Ok_0 as usize,
            },
        )
    }
}

/// What reading digests from a list of fields gives: all of them, or the first complaint.
pub open spec fn read_hashes(pieces: Seq<Seq<char>>) -> Result<Seq<Digest>, Seq<char>>
    decreases pieces.len(),
{
    if pieces.len() == 0 {
        Ok(Seq::empty())
    } else {
        match read_hashes(pieces.drop_last()) {
            Ok(hashes) => match digest::spec_from_hex(pieces.last()) {
                Ok(hash) => Ok(hashes.push(hash)),
                Err(message) => Err(message),
            },
            Err(message) => Err(message),
        }
    }
}

/// What reading a list of digests from a field gives; none where the field is empty.
pub open spec fn hashes_field(field: Seq<char>) -> Result<Seq<Digest>, Seq<char>> {
    if field.len() == 0 {
        Ok(Seq::empty())
    } else {
        read_hashes(text::split(field, ','))
    }
}

/// What reading the fields of a request by hashes gives.
pub open spec fn locate_of(parts: Seq<Seq<char>>) -> Result<MessageView, Seq<char>> {
    let limit = fields::unsigned_field(parts[1], usize::MAX as nat, "limit"@);
    let hashes = hashes_field(parts[2]);
    if parts.len() != 3 {
        Err("LOCATE requires 2 fields"@)
    } else if limit is Err {
        Err(limit->Err_0)
    } else if hashes is Err {
        Err(hashes->Err_0)
    } else {
        Ok(MessageView::Locate { hashes: hashes->Ok_0, limit: limit->Ok_0 as usize })
    }
}

/// What reading the fields of an address gives.
pub open spec fn peer_of(parts: Seq<Seq<char>>) -> Result<MessageView, Seq<char>> {
    let addr = fields::text_field(parts[1]);
    if parts.len() != 2 {
        Err("PEER requires 1 field"@)
    } else if addr is Err {
        Err(addr->Err_0)
    } else {
        Ok(MessageView::Peer { addr: addr->Ok_0 })
    }
}

/// What reading the fields of a message gives: the first field names the kind.
pub open spec fn message_of(parts: Seq<Seq<char>>) -> Result<MessageView, Seq<char>> {
    if parts.len() == 0 {
        Err("empty message"@)
    } else if parts[0] == "HELLO"@ {
        hello_of(parts)
    } else if parts[0] == "BLOCK"@ {
        match block_of(parts) {
            Ok(block) => Ok(MessageView::Block(block)),
            Err(message) => Err(message),
        }
    } else if parts[0] == "GETBLOCKS"@ {
        get_blocks_of(parts)
    } else if parts[0] == "LOCATE"@ {
        locate_of(parts)
    } else if parts[0] == "ENDBLOCKS"@ {
        if parts.len() != 1 {
            Err("ENDBLOCKS requires 0 fields"@)
        } else {
            Ok(MessageView::EndBlocks)
        }
    } else if parts[0] == "PEER"@ {
        peer_of(parts)
    } else {
        Err("unknown message type '"@ + parts[0] + "'"@)
    }
}

/// What reading a line gives: a message, or what is wrong with the line.
pub open spec fn spec_decode(line: Seq<char>) -> Result<MessageView, Seq<char>> {
    message_of(text::split(trimmed(line), '|'))
}

/// What a result says.
pub open spec fn result_view(result: Result<PeerMessage, String>) -> Result<
    MessageView,
    Seq<char>,
> {
    match result {
        Ok(message) => Ok(message@),
        Err(message) => Err(message@),
    }
}

/// An executable result stands for a result over views.
pub open spec fn stands_for(
    result: Result<PeerMessage, String>,
    expected: Result<MessageView, Seq<char>>,
) -> bool {
    result_view(result) == expected
}

/// Writes a block.
fn encode_block(block: &Block) -> (line: String)
    ensures
        line@ == text::join(block_parts(block@), "|"@),
{
    let header: &BlockHeader = &block.header;
    let mut parts: Vec<String> = Vec::new();
    parts.push("BLOCK".to_string());
    parts.push(decimal::u64_text(header.height));
    parts.push(header.previous_block.to_hex());
    parts.push(fields::encode_model(&header.model_before));
    parts.push(fields::encode_model(&header.model_after));
    parts.push(header.trace_root.to_hex());
    parts.push(decimal::u64_text(header.training_seed));
    parts.push(decimal::u64_text(header.sampling_entropy));
    parts.push(decimal::u64_text(header.sample_count as u64));
    parts.push(decimal::u64_text(header.nonce));
    parts.push(fields::encode_model(&block.trace.initial_model));
    parts.push(fields::encode_model(&block.trace.candidate_model));
    parts.push(block.trace.root.to_hex());
    parts.push(fields::encode_entries(block.trace.entries.as_slice()));
    assert(text::string_views(parts@) =~= block_parts(block@));
    text::join_strings(parts.as_slice(), "|")
}

/// Writes a list of digests, with a comma between neighbours.
fn encode_hashes(hashes: &[Digest]) -> (field: String)
    ensures
        field@ == text::join(hash_texts(hashes@), ","@),
{
    let mut parts: Vec<String> = Vec::new();
    let mut index: usize = 0;
    assert(text::string_views(parts@) =~= hash_texts(hashes@.take(0)));
    while index < hashes.len()
        invariant
            index <= hashes@.len(),
            text::string_views(parts@) == hash_texts(hashes@.take(index as int)),
        decreases hashes@.len() - index,
    {
        let ghost before: Seq<String> = parts@;
        parts.push(hashes[index].to_hex());
        index += 1;
        assert(text::string_views(parts@) =~= text::string_views(before).push(
            digest::hex_text(hashes@[index - 1]@),
        ));
        assert(hash_texts(hashes@.take(index as int)) =~= hash_texts(hashes@.take(index - 1)).push(
            digest::hex_text(hashes@[index - 1]@),
        ));
    }
    assert(hashes@.take(index as int) =~= hashes@);
    text::join_strings(parts.as_slice(), ",")
}

/// Writes a message.
pub fn encode_message(message: &PeerMessage) -> (line: String)
    ensures
        line@ == message_text(message@),
{
    let mut parts: Vec<String> = Vec::new();
    match message {
        PeerMessage::Hello { node_id, height, head } => {
            parts.push("HELLO".to_string());
            parts.push(fields::escape(node_id.as_str()));
            parts.push(decimal::u64_text(*height));
            parts.push(head.to_hex());
        },
        PeerMessage::Block(block) => {
            return encode_block(block);
        },
        PeerMessage::GetBlocks { from_height, limit } => {
            parts.push("GETBLOCKS".to_string());
            parts.push(decimal::u64_text(*from_height));
            parts.push(decimal::u64_text(*limit as u64));
        },
        PeerMessage::Locate { hashes, limit } => {
            parts.push("LOCATE".to_string());
            parts.push(decimal::u64_text(*limit as u64));
            parts.push(encode_hashes(hashes.as_slice()));
        },
        PeerMessage::EndBlocks => {
            parts.push("ENDBLOCKS".to_string());
        },
        PeerMessage::Peer { addr } => {
            parts.push("PEER".to_string());
            parts.push(fields::escape(addr.as_str()));
        },
    }
    assert(text::string_views(parts@) =~= message_parts(message@));
    text::join_strings(parts.as_slice(), "|")
}

/// Writes a block as a line of its own.
pub fn encode_block_message(block: &Block) -> (line: String)
    ensures
        line@ == message_text(MessageView::Block(block@)),
{
    encode_block(block)
}

/// The characters of a line without the line ends behind it.
pub fn trim_line_end(line: &str) -> (chars: Vec<char>)
    ensures
        chars@ == trimmed(line@),
{
    let mut chars: Vec<char> = text::chars_of(line);
    while chars.len() > 0 && (chars[chars.len() - 1] == '\r' || chars[chars.len() - 1] == '\n')
        invariant
            trimmed(chars@) == trimmed(line@),
        decreases chars@.len(),
    {
        let ghost before: Seq<char> = chars@;
        chars.pop();
        assert(chars@ =~= before.drop_last());
    }
    chars
}

/// Reads a message.
pub fn decode_message(line: &str) -> (result: Result<PeerMessage, String>)
    ensures
        stands_for(result, spec_decode(line@)),
{
    let chars: Vec<char> = trim_line_end(line);
    let parts: Vec<Vec<char>> = text::split_chars(chars.as_slice(), '|');
    decode_fields(parts.as_slice())
}

/// Reads a message from its fields.
pub fn decode_fields(parts: &[Vec<char>]) -> (result: Result<PeerMessage, String>)
    ensures
        stands_for(result, message_of(text::contents(parts@))),
{
    let ghost texts: Seq<Seq<char>> = text::contents(parts@);
    if parts.len() == 0 {
        return Err("empty message".to_string());
    }
    assert(texts[0] == parts@[0]@);
    let kind: &[char] = parts[0].as_slice();
    if text::spells(kind, "HELLO") {
        return decode_hello(parts);
    }
    if text::spells(kind, "BLOCK") {
        return match decode_block(parts) {
            Ok(block) => Ok(PeerMessage::Block(Box::new(block))),
            Err(message) => Err(message),
        };
    }
    if text::spells(kind, "GETBLOCKS") {
        return decode_get_blocks(parts);
    }
    if text::spells(kind, "LOCATE") {
        return decode_locate(parts);
    }
    if text::spells(kind, "ENDBLOCKS") {
        if parts.len() != 1 {
            return Err("ENDBLOCKS requires 0 fields".to_string());
        }
        return Ok(PeerMessage::EndBlocks);
    }
    if text::spells(kind, "PEER") {
        return decode_peer(parts);
    }
    let other: String = text::string_of(kind);
    Err(text::concat3("unknown message type '", other.as_str(), "'"))
}

fn decode_hello(parts: &[Vec<char>]) -> (result: Result<PeerMessage, String>)
    ensures
        stands_for(result, hello_of(text::contents(parts@))),
{
    let ghost texts: Seq<Seq<char>> = text::contents(parts@);
    if parts.len() != 4 {
        return Err("HELLO requires 3 fields".to_string());
    }
    assert(forall|i: int| 0 <= i < 4 ==> #[trigger] texts[i] == parts@[i]@);
    let node_id: String = match fields::unescape(parts[1].as_slice()) {
        Ok(value) => value,
        Err(message) => return Err(message),
    };
    let height: u64 = match fields::parse_u64(parts[2].as_slice(), "height") {
        Ok(value) => value,
        Err(message) => return Err(message),
    };
    let head: Digest = match fields::parse_digest(parts[3].as_slice()) {
        Ok(value) => value,
        Err(message) => return Err(message),
    };
    Ok(PeerMessage::Hello { node_id, height, head })
}

fn decode_header(parts: &[Vec<char>]) -> (result: Result<BlockHeader, String>)
    requires
        parts@.len() == 14,
    ensures
        match result {
            Ok(header) => header_of(text::contents(parts@)) == Ok::<BlockHeader, Seq<char>>(header),
            Err(message) => header_of(text::contents(parts@)) == Err::<BlockHeader, Seq<char>>(
                message@,
            ),
        },
{
    let ghost texts: Seq<Seq<char>> = text::contents(parts@);
    assert(forall|i: int| 0 <= i < 14 ==> #[trigger] texts[i] == parts@[i]@);
    let height: u64 = match fields::parse_u64(parts[1].as_slice(), "height") {
        Ok(value) => value,
        Err(message) => return Err(message),
    };
    let previous_block: Digest = match fields::parse_digest(parts[2].as_slice()) {
        Ok(value) => value,
        Err(message) => return Err(message),
    };
    let model_before: ModelState = match fields::decode_model(parts[3].as_slice()) {
        Ok(value) => value,
        Err(message) => return Err(message),
    };
    let model_after: ModelState = match fields::decode_model(parts[4].as_slice()) {
        Ok(value) => value,
        Err(message) => return Err(message),
    };
    let trace_root: Digest = match fields::parse_digest(parts[5].as_slice()) {
        Ok(value) => value,
        Err(message) => return Err(message),
    };
    let training_seed: u64 = match fields::parse_u64(parts[6].as_slice(), "training_seed") {
        Ok(value) => value,
        Err(message) => return Err(message),
    };
    let sampling_entropy: u64 = match fields::parse_u64(parts[7].as_slice(), "sampling_entropy") {
        Ok(value) => value,
        Err(message) => return Err(message),
    };
    let sample_count: usize = match fields::parse_usize(parts[8].as_slice(), "sample_count") {
        Ok(value) => value,
        Err(message) => return Err(message),
    };
    let nonce: u64 = match fields::parse_u64(parts[9].as_slice(), "nonce") {
        Ok(value) => value,
        Err(message) => return Err(message),
    };
    Ok(
        BlockHeader {
            height,
            previous_block,
            model_before,
            model_after,
            trace_root,
            training_seed,
            sampling_entropy,
            sample_count,
            nonce,
        },
    )
}

fn decode_block(parts: &[Vec<char>]) -> (result: Result<Block, String>)
    ensures
        match result {
            Ok(block) => block_of(text::contents(parts@)) == Ok::<BlockView, Seq<char>>(block@),
            Err(message) => block_of(text::contents(parts@)) == Err::<BlockView, Seq<char>>(
                message@,
            ),
        },
{
    reveal(block_of);
    let ghost texts: Seq<Seq<char>> = text::contents(parts@);
    if parts.len() != 14 {
        return Err("BLOCK requires 13 fields".to_string());
    }
    assert(forall|i: int| 0 <= i < 14 ==> #[trigger] texts[i] == parts@[i]@);
    let header: BlockHeader = match decode_header(parts) {
        Ok(value) => value,
        Err(message) => return Err(message),
    };
    let entries: Vec<TraceEntry> = match fields::decode_entries(parts[13].as_slice()) {
        Ok(value) => value,
        Err(message) => return Err(message),
    };
    let initial_model: ModelState = match fields::decode_model(parts[10].as_slice()) {
        Ok(value) => value,
        Err(message) => return Err(message),
    };
    let candidate_model: ModelState = match fields::decode_model(parts[11].as_slice()) {
        Ok(value) => value,
        Err(message) => return Err(message),
    };
    let root: Digest = match fields::parse_digest(parts[12].as_slice()) {
        Ok(value) => value,
        Err(message) => return Err(message),
    };
    Ok(Block { header, trace: TrainingTrace { initial_model, candidate_model, entries, root } })
}

fn decode_get_blocks(parts: &[Vec<char>]) -> (result: Result<PeerMessage, String>)
    ensures
        stands_for(result, get_blocks_of(text::contents(parts@))),
{
    let ghost texts: Seq<Seq<char>> = text::contents(parts@);
    if parts.len() != 3 {
        return Err("GETBLOCKS requires 2 fields".to_string());
    }
    assert(forall|i: int| 0 <= i < 3 ==> #[trigger] texts[i] == parts@[i]@);
    let from_height: u64 = match fields::parse_u64(parts[1].as_slice(), "from_height") {
        Ok(value) => value,
        Err(message) => return Err(message),
    };
    let limit: usize = match fields::parse_usize(parts[2].as_slice(), "limit") {
        Ok(value) => value,
        Err(message) => return Err(message),
    };
    Ok(PeerMessage::GetBlocks { from_height, limit })
}

/// A complaint about one of the first digests is the complaint about the whole list.
proof fn lemma_first_bad_hash(pieces: Seq<Seq<char>>, count: int)
    requires
        0 <= count <= pieces.len(),
        read_hashes(pieces.take(count)) is Err,
    ensures
        read_hashes(pieces) == read_hashes(pieces.take(count)),
    decreases pieces.len(),
{
    if count == pieces.len() {
        assert(pieces.take(count) =~= pieces);
    } else {
        assert(pieces.drop_last().take(count) =~= pieces.take(count));
        lemma_first_bad_hash(pieces.drop_last(), count);
    }
}

fn decode_hashes(field: &[char]) -> (result: Result<Vec<Digest>, String>)
    ensures
        match result {
            Ok(hashes) => hashes_field(field@) == Ok::<Seq<Digest>, Seq<char>>(hashes@),
            Err(message) => hashes_field(field@) == Err::<Seq<Digest>, Seq<char>>(message@),
        },
{
    let mut hashes: Vec<Digest> = Vec::new();
    assert(hashes@ =~= Seq::<Digest>::empty());
    if field.len() == 0 {
        return Ok(hashes);
    }
    let pieces: Vec<Vec<char>> = text::split_chars(field, ',');
    let ghost texts: Seq<Seq<char>> = text::contents(pieces@);
    let mut index: usize = 0;
    assert(texts.take(0) =~= Seq::<Seq<char>>::empty());
    while index < pieces.len()
        invariant
            index <= pieces@.len(),
            field@.len() > 0,
            texts == text::contents(pieces@),
            texts == text::split(field@, ','),
            read_hashes(texts.take(index as int)) == Ok::<Seq<Digest>, Seq<char>>(hashes@),
        decreases pieces@.len() - index,
    {
        assert(texts.take(index + 1).drop_last() =~= texts.take(index as int));
        assert(texts[index as int] == pieces@[index as int]@);
        match fields::parse_digest(pieces[index].as_slice()) {
            Ok(hash) => hashes.push(hash),
            Err(message) => {
                proof {
                    lemma_first_bad_hash(texts, index + 1);
                }
                return Err(message);
            },
        }
        index += 1;
    }
    assert(texts.take(index as int) =~= texts);
    Ok(hashes)
}

fn decode_locate(parts: &[Vec<char>]) -> (result: Result<PeerMessage, String>)
    ensures
        stands_for(result, locate_of(text::contents(parts@))),
{
    let ghost texts: Seq<Seq<char>> = text::contents(parts@);
    if parts.len() != 3 {
        return Err("LOCATE requires 2 fields".to_string());
    }
    assert(forall|i: int| 0 <= i < 3 ==> #[trigger] texts[i] == parts@[i]@);
    let limit: usize = match fields::parse_usize(parts[1].as_slice(), "limit") {
        Ok(value) => value,
        Err(message) => return Err(message),
    };
    let hashes: Vec<Digest> = match decode_hashes(parts[2].as_slice()) {
        Ok(value) => value,
        Err(message) => return Err(message),
    };
    Ok(PeerMessage::Locate { hashes, limit })
}

fn decode_peer(parts: &[Vec<char>]) -> (result: Result<PeerMessage, String>)
    ensures
        stands_for(result, peer_of(text::contents(parts@))),
{
    let ghost texts: Seq<Seq<char>> = text::contents(parts@);
    if parts.len() != 2 {
        return Err("PEER requires 1 field".to_string());
    }
    assert(forall|i: int| 0 <= i < 2 ==> #[trigger] texts[i] == parts@[i]@);
    match fields::unescape(parts[1].as_slice()) {
        Ok(addr) => Ok(PeerMessage::Peer { addr }),
        Err(message) => Err(message),
    }
}

/// What reading a line that must hold a block gives.
pub open spec fn spec_decode_block(line: Seq<char>) -> Result<BlockView, Seq<char>> {
    match spec_decode(line) {
        Ok(MessageView::Block(block)) => Ok(block),
        Ok(_) => Err("expected a BLOCK message"@),
        Err(message) => Err(message),
    }
}

/// Reads a line that must hold a block.
pub fn decode_block_message(line: &str) -> (result: Result<Block, String>)
    ensures
        match result {
            Ok(block) => spec_decode_block(line@) == Ok::<BlockView, Seq<char>>(block@),
            Err(message) => spec_decode_block(line@) == Err::<BlockView, Seq<char>>(message@),
        },
{
    match decode_message(line) {
        Ok(PeerMessage::Block(block)) => Ok(*block),
        Ok(_) => Err("expected a BLOCK message".to_string()),
        Err(message) => Err(message),
    }
}

} // verus!
