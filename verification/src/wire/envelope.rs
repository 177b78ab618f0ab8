//! The envelope around every message: protocol version, network and chain parameters.

use vstd::prelude::*;

use crate::adapters;
use crate::adapters::ToyHash;
use crate::application::ChainConfig;
use crate::bits;
use crate::decimal;
use crate::domain::digest;
use crate::domain::Digest;
use crate::ports::HashPort;
use crate::text;
use crate::wire::fields;
use crate::wire::message;
use crate::wire::message::{MessageView, PeerMessage};

verus! {

/// The word that every enveloped line begins with.
pub const WIRE_MAGIC: &'static str = "CHESSCOIN";

/// The protocol version that this node speaks.
pub const PROTOCOL_VERSION: u32 = 6;

/// What both ends of a connection must agree on.
#[derive(Debug, PartialEq, Eq)]
pub struct WireConfig {
    pub network_id: String,
    pub protocol_version: u32,
    pub chain_fingerprint: Digest,
}

/// What an envelope says.
#[verifier::ext_equal]
pub struct WireView {
    pub network_id: Seq<char>,
    pub protocol_version: u32,
    pub chain_fingerprint: Digest,
}

impl View for WireConfig {
    type V = WireView;

    open spec fn view(&self) -> WireView {
        WireView {
            network_id: self.network_id@,
            protocol_version: self.protocol_version,
            chain_fingerprint: self.chain_fingerprint,
        }
    }
}

impl Clone for WireConfig {
    fn clone(&self) -> (copy: Self)
        ensures
            copy@ == self@,
    {
        WireConfig {
            network_id: self.network_id.clone(),
            protocol_version: self.protocol_version,
            chain_fingerprint: self.chain_fingerprint,
        }
    }
}

/// The parameters of a chain as bytes, after a tag.
pub open spec fn fingerprint_bytes(config: ChainConfig) -> Seq<u8> {
    vstd::utf8::encode_utf8("chesscoin.chain-params.v1"@) + bits::le_bytes(
        config.steps_per_block as u64,
    ) + bits::le_bytes(config.samples_per_block as u64) + bits::le_bytes(
        config.difficulty_zero_bits as u64,
    )
}

/// The fingerprint of a chain's parameters.
pub open spec fn spec_fingerprint(config: ChainConfig) -> Digest {
    adapters::spec_toy_digest(fingerprint_bytes(config))
}

/// The fingerprint of a chain's parameters: steps, samples and difficulty.
pub fn chain_fingerprint(config: &ChainConfig) -> (fingerprint: Digest)
    ensures
        fingerprint == spec_fingerprint(*config),
{
    let mut bytes: Vec<u8> = Vec::new();
    bytes.extend_from_slice("chesscoin.chain-params.v1".as_bytes());
    assert(bytes@ =~= vstd::utf8::encode_utf8("chesscoin.chain-params.v1"@));
    bits::push_le_bytes(&mut bytes, config.steps_per_block as u64);
    bits::push_le_bytes(&mut bytes, config.samples_per_block as u64);
    bits::push_le_bytes(&mut bytes, config.difficulty_zero_bits as u64);
    ToyHash.digest(bytes.as_slice())
}

impl Default for WireConfig {
    fn default() -> (config: Self)
        ensures
            config@ == (WireView {
                network_id: "chesscoin-local"@,
                protocol_version: PROTOCOL_VERSION,
                chain_fingerprint: spec_fingerprint(
                    ChainConfig {
                        steps_per_block: 16,
                        samples_per_block: 6,
                        difficulty_zero_bits: 8,
                    },
                ),
            }),
    {
        WireConfig {
            network_id: "chesscoin-local".to_string(),
            protocol_version: PROTOCOL_VERSION,
            chain_fingerprint: chain_fingerprint(&ChainConfig::default()),
        }
    }
}

/// The fields of an envelope.
pub open spec fn envelope_parts(wire: WireView) -> Seq<Seq<char>> {
    seq![
        WIRE_MAGIC@,
        decimal::int_text(wire.protocol_version as int),
        fields::escaped(wire.network_id),
        digest::hex_text(wire.chain_fingerprint@),
    ]
}

/// The text of an enveloped message.
pub open spec fn network_text(wire: WireView, held: MessageView) -> Seq<char> {
    text::join(envelope_parts(wire) + message::message_parts(held), "|"@)
}

/// What is wrong with the envelope of a line, at a node with the given settings: the first thing
/// that does not match.
pub open spec fn envelope_fault(parts: Seq<Seq<char>>, wire: WireView) -> Option<Seq<char>> {
    let version = fields::unsigned_field(parts[1], u32::MAX as nat, "protocol_version"@);
    let fingerprint = digest::spec_from_hex(parts[3]);
    if parts.len() < 5 || parts[0] != WIRE_MAGIC@ {
        Some("missing network envelope"@)
    } else if version is Err {
        Some(version->Err_0)
    } else if version->Ok_0 != wire.protocol_version {
        Some("protocol version does not match"@)
    } else if parts[2] != fields::escaped(wire.network_id) {
        Some("network id does not match"@)
    } else if fingerprint is Err {
        Some(fingerprint->Err_0)
    } else if fingerprint->Ok_0 != wire.chain_fingerprint {
        Some("chain fingerprint does not match"@)
    } else {
        None
    }
}

/// What reading the fields of an enveloped message gives, at a node with the given settings: the
/// message behind an envelope without fault.
pub open spec fn network_message_of(parts: Seq<Seq<char>>, wire: WireView) -> Result<
    MessageView,
    Seq<char>,
> {
    match envelope_fault(parts, wire) {
        Some(fault) => Err(fault),
        None => message::message_of(parts.skip(4)),
    }
}

/// What reading an enveloped line gives, at a node with the given settings.
pub open spec fn spec_decode_network(line: Seq<char>, wire: WireView) -> Result<
    MessageView,
    Seq<char>,
> {
    network_message_of(text::split(message::trimmed(line), '|'), wire)
}

/// Writes a message in its envelope.
pub fn encode_network_message(wire: &WireConfig, held: &PeerMessage) -> (line: String)
    ensures
        line@ == network_text(wire@, held@),
{
    let mut parts: Vec<String> = Vec::new();
    parts.push(WIRE_MAGIC.to_string());
    parts.push(decimal::u64_text(wire.protocol_version as u64));
    parts.push(fields::escape(wire.network_id.as_str()));
    parts.push(wire.chain_fingerprint.to_hex());
    assert(text::string_views(parts@) =~= envelope_parts(wire@));
    let envelope: String = text::join_strings(parts.as_slice(), "|");
    let body: String = message::encode_message(held);
    proof {
        text::lemma_join_append(envelope_parts(wire@), message::message_parts(held@), "|"@);
    }
    text::concat3(envelope.as_str(), "|", body.as_str())
}

/// Reads an enveloped message, at a node with the given settings.
pub fn decode_network_message(line: &str, wire: &WireConfig) -> (result: Result<
    PeerMessage,
    String,
>)
    ensures
        message::stands_for(result, spec_decode_network(line@, wire@)),
{
    let chars: Vec<char> = message::trim_line_end(line);
    let parts: Vec<Vec<char>> = text::split_chars(chars.as_slice(), '|');
    let ghost texts: Seq<Seq<char>> = text::contents(parts@);
    if parts.len() < 5 {
        return Err("missing network envelope".to_string());
    }
    assert(forall|i: int| 0 <= i < 5 ==> #[trigger] texts[i] == parts@[i]@);
    if !text::spells(parts[0].as_slice(), WIRE_MAGIC) {
        return Err("missing network envelope".to_string());
    }
    let version: u32 = match fields::parse_u32(parts[1].as_slice(), "protocol_version") {
        Ok(value) => value,
        Err(message) => return Err(message),
    };
    if version != wire.protocol_version {
        return Err("protocol version does not match".to_string());
    }
    let own_network: String = fields::escape(wire.network_id.as_str());
    if !text::spells(parts[2].as_slice(), own_network.as_str()) {
        return Err("network id does not match".to_string());
    }
    let fingerprint: Digest = match fields::parse_digest(parts[3].as_slice()) {
        Ok(value) => value,
        Err(message) => return Err(message),
    };
    if fingerprint != wire.chain_fingerprint {
        return Err("chain fingerprint does not match".to_string());
    }
    let body: &[Vec<char>] = vstd::slice::slice_subrange(parts.as_slice(), 4, parts.len());
    assert(text::contents(body@) =~= texts.skip(4));
    message::decode_fields(body)
}

/// Whether a line begins with the word that every enveloped line begins with.
pub fn is_enveloped(line: &str) -> (enveloped: bool)
    ensures
        enveloped == WIRE_MAGIC@.is_prefix_of(line@),
{
    let chars: Vec<char> = text::chars_of(line);
    text::starts_with(chars.as_slice(), WIRE_MAGIC)
}

} // verus!
