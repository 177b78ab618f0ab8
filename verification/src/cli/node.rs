//! The options of a node, on the command line and in a configuration file.

use vstd::prelude::*;

use crate::application::ChainConfig;
use crate::cli::command;
use crate::decimal;
use crate::node::config;
use crate::node::config::{NetworkView, NodeConfigView};
use crate::node::{MinerConfig, NodeConfig, PeerAddr, StorageConfig, SyncConfig};
use crate::storage;
use crate::text;
use crate::wire::envelope::WireView;
use crate::wire::message;

verus! {

/// A word of the command line or of a configuration file, and the address that it spells, where it
/// spells one.
#[derive(Debug, PartialEq, Eq)]
pub struct Argument {
    pub text: String,
    pub addr: Option<PeerAddr>,
}

/// A word, and the address that it spells.
pub struct ArgumentView {
    pub text: Seq<char>,
    pub addr: Option<PeerAddr>,
}

impl View for Argument {
    type V = ArgumentView;

    open spec fn view(&self) -> ArgumentView {
        ArgumentView { text: self.text@, addr: self.addr }
    }
}

/// The words of a list.
pub open spec fn argument_views(args: Seq<Argument>) -> Seq<ArgumentView> {
    args.map_values(|arg: Argument| arg@)
}

/// A setting with a value.
#[derive(Clone, Copy, Debug, PartialEq, Eq, Structural)]
pub enum Setting {
    NodeId,
    Listen,
    Advertise,
    Peer,
    NetworkId,
    ProtocolVersion,
    DataDir,
    MineIntervalMs,
    RunMs,
    Steps,
    Samples,
    Difficulty,
    MaxMessageBytes,
    MaxPeers,
    MaxInboundConnections,
    ConnectTimeoutMs,
    ReadTimeoutMs,
    WriteTimeoutMs,
    SyncIntervalMs,
    SyncMaxBlocks,
    SyncLocatorHashes,
    Seed,
    Entropy,
}

/// A setting that is on or off.
#[derive(Clone, Copy, Debug, PartialEq, Eq, Structural)]
pub enum Switch {
    Mine,
    MineOnce,
    NoSync,
}

/// The setting with the given name.
pub open spec fn setting_named(name: Seq<char>) -> Option<Setting> {
    if name == "node_id"@ {
        Some(Setting::NodeId)
    } else if name == "listen"@ {
        Some(Setting::Listen)
    } else if name == "advertise"@ {
        Some(Setting::Advertise)
    } else if name == "peer"@ {
        Some(Setting::Peer)
    } else if name == "network_id"@ {
        Some(Setting::NetworkId)
    } else if name == "protocol_version"@ {
        Some(Setting::ProtocolVersion)
    } else if name == "data_dir"@ {
        Some(Setting::DataDir)
    } else if name == "mine_interval_ms"@ {
        Some(Setting::MineIntervalMs)
    } else if name == "run_ms"@ {
        Some(Setting::RunMs)
    } else if name == "steps"@ {
        Some(Setting::Steps)
    } else if name == "samples"@ {
        Some(Setting::Samples)
    } else if name == "difficulty"@ {
        Some(Setting::Difficulty)
    } else if name == "max_message_bytes"@ {
        Some(Setting::MaxMessageBytes)
    } else if name == "max_peers"@ {
        Some(Setting::MaxPeers)
    } else if name == "max_inbound_connections"@ {
        Some(Setting::MaxInboundConnections)
    } else if name == "connect_timeout_ms"@ {
        Some(Setting::ConnectTimeoutMs)
    } else if name == "read_timeout_ms"@ {
        Some(Setting::ReadTimeoutMs)
    } else if name == "write_timeout_ms"@ {
        Some(Setting::WriteTimeoutMs)
    } else if name == "sync_interval_ms"@ {
        Some(Setting::SyncIntervalMs)
    } else if name == "sync_max_blocks"@ {
        Some(Setting::SyncMaxBlocks)
    } else if name == "sync_locator_hashes"@ {
        Some(Setting::SyncLocatorHashes)
    } else if name == "seed"@ {
        Some(Setting::Seed)
    } else if name == "entropy"@ {
        Some(Setting::Entropy)
    } else {
        None
    }
}

/// The switch with the given name.
pub open spec fn switch_named(name: Seq<char>) -> Option<Switch> {
    if name == "mine"@ {
        Some(Switch::Mine)
    } else if name == "mine_once"@ {
        Some(Switch::MineOnce)
    } else if name == "no_sync"@ {
        Some(Switch::NoSync)
    } else {
        None
    }
}

/// Finds the setting with the given name.
fn find_setting(name: &[char]) -> (setting: Option<Setting>)
    ensures
        setting == setting_named(name@),
{
    if text::spells(name, "node_id") {
        Some(Setting::NodeId)
    } else if text::spells(name, "listen") {
        Some(Setting::Listen)
    } else if text::spells(name, "advertise") {
        Some(Setting::Advertise)
    } else if text::spells(name, "peer") {
        Some(Setting::Peer)
    } else if text::spells(name, "network_id") {
        Some(Setting::NetworkId)
    } else if text::spells(name, "protocol_version") {
        Some(Setting::ProtocolVersion)
    } else if text::spells(name, "data_dir") {
        Some(Setting::DataDir)
    } else if text::spells(name, "mine_interval_ms") {
        Some(Setting::MineIntervalMs)
    } else if text::spells(name, "run_ms") {
        Some(Setting::RunMs)
    } else if text::spells(name, "steps") {
        Some(Setting::Steps)
    } else if text::spells(name, "samples") {
        Some(Setting::Samples)
    } else if text::spells(name, "difficulty") {
        Some(Setting::Difficulty)
    } else if text::spells(name, "max_message_bytes") {
        Some(Setting::MaxMessageBytes)
    } else if text::spells(name, "max_peers") {
        Some(Setting::MaxPeers)
    } else if text::spells(name, "max_inbound_connections") {
        Some(Setting::MaxInboundConnections)
    } else if text::spells(name, "connect_timeout_ms") {
        Some(Setting::ConnectTimeoutMs)
    } else if text::spells(name, "read_timeout_ms") {
        Some(Setting::ReadTimeoutMs)
    } else if text::spells(name, "write_timeout_ms") {
        Some(Setting::WriteTimeoutMs)
    } else if text::spells(name, "sync_interval_ms") {
        Some(Setting::SyncIntervalMs)
    } else if text::spells(name, "sync_max_blocks") {
        Some(Setting::SyncMaxBlocks)
    } else if text::spells(name, "sync_locator_hashes") {
        Some(Setting::SyncLocatorHashes)
    } else if text::spells(name, "seed") {
        Some(Setting::Seed)
    } else if text::spells(name, "entropy") {
        Some(Setting::Entropy)
    } else {
        None
    }
}

/// Finds the switch with the given name.
fn find_switch(name: &[char]) -> (switch: Option<Switch>)
    ensures
        switch == switch_named(name@),
{
    if text::spells(name, "mine") {
        Some(Switch::Mine)
    } else if text::spells(name, "mine_once") {
        Some(Switch::MineOnce)
    } else if text::spells(name, "no_sync") {
        Some(Switch::NoSync)
    } else {
        None
    }
}

/// What a node is asked to do.
#[derive(Debug, PartialEq, Eq)]
pub struct NodeRequest {
    pub config: NodeConfig,
    pub mine: bool,
    pub mine_interval_ms: u64,
    pub mine_once: bool,
    pub run_ms: u64,
    pub training_seed: u64,
    pub sampling_entropy: u64,
}

/// What a node is asked to do.
#[verifier::ext_equal]
pub struct NodeRequestView {
    pub config: NodeConfigView,
    pub mine: bool,
    pub mine_interval_ms: u64,
    pub mine_once: bool,
    pub run_ms: u64,
    pub training_seed: u64,
    pub sampling_entropy: u64,
}

impl View for NodeRequest {
    type V = NodeRequestView;

    open spec fn view(&self) -> NodeRequestView {
        NodeRequestView {
            config: self.config@,
            mine: self.mine,
            mine_interval_ms: self.mine_interval_ms,
            mine_once: self.mine_once,
            run_ms: self.run_ms,
            training_seed: self.training_seed,
            sampling_entropy: self.sampling_entropy,
        }
    }
}

/// The request that nothing has been changed in.
pub open spec fn default_request() -> NodeRequestView {
    NodeRequestView {
        config: config::default_node(
            "chesscoin-node"@,
            PeerAddr::V4 { ip: 0x7f00_0001, port: 9333 },
        ),
        mine: false,
        mine_interval_ms: 5_000,
        mine_once: false,
        run_ms: 0,
        training_seed: 42,
        sampling_entropy: 2_026,
    }
}

/// The request with another configuration.
pub open spec fn with_config(request: NodeRequestView, held: NodeConfigView) -> NodeRequestView {
    NodeRequestView { config: held, ..request }
}

/// The request with other chain parameters.
pub open spec fn with_chain(request: NodeRequestView, chain: ChainConfig) -> NodeRequestView {
    with_config(request, NodeConfigView { chain, ..request.config })
}

/// The request with other network settings.
pub open spec fn with_network(request: NodeRequestView, network: NetworkView) -> NodeRequestView {
    with_config(request, NodeConfigView { network, ..request.config })
}

/// The request with another envelope.
pub open spec fn with_wire(request: NodeRequestView, wire: WireView) -> NodeRequestView {
    with_network(request, NetworkView { wire, ..request.config.network })
}

/// The request with other settings for catching up.
pub open spec fn with_sync(request: NodeRequestView, sync: SyncConfig) -> NodeRequestView {
    with_config(request, NodeConfigView { sync, ..request.config })
}

/// The largest number that a setting takes; none for settings that take something else.
pub open spec fn number_limit(setting: Setting) -> Option<nat> {
    match setting {
        Setting::NodeId | Setting::NetworkId | Setting::DataDir => None,
        Setting::Listen | Setting::Advertise | Setting::Peer => None,
        Setting::ProtocolVersion | Setting::Difficulty => Some(u32::MAX as nat),
        Setting::Steps | Setting::Samples | Setting::MaxMessageBytes | Setting::MaxPeers => Some(
            usize::MAX as nat,
        ),
        Setting::MaxInboundConnections
        | Setting::SyncMaxBlocks
        | Setting::SyncLocatorHashes => Some(usize::MAX as nat),
        _ => Some(u64::MAX as nat),
    }
}

/// The request with a number set.
pub open spec fn with_number(
    request: NodeRequestView,
    setting: Setting,
    number: nat,
) -> NodeRequestView {
    match setting {
        Setting::ProtocolVersion => with_wire(
            request,
            WireView { protocol_version: number as u32, ..request.config.network.wire },
        ),
        Setting::MineIntervalMs => NodeRequestView { mine_interval_ms: number as u64, ..request },
        Setting::RunMs => NodeRequestView { run_ms: number as u64, ..request },
        Setting::Steps => with_chain(
            request,
            ChainConfig { steps_per_block: number as usize, ..request.config.chain },
        ),
        Setting::Samples => with_chain(
            request,
            ChainConfig { samples_per_block: number as usize, ..request.config.chain },
        ),
        Setting::Difficulty => with_chain(
            request,
            ChainConfig { difficulty_zero_bits: number as u32, ..request.config.chain },
        ),
        Setting::MaxMessageBytes => with_network(
            request,
            NetworkView { max_message_bytes: number as usize, ..request.config.network },
        ),
        Setting::MaxPeers => with_network(
            request,
            NetworkView { max_peers: number as usize, ..request.config.network },
        ),
        Setting::MaxInboundConnections => with_network(
            request,
            NetworkView { max_inbound_connections: number as usize, ..request.config.network },
        ),
        Setting::ConnectTimeoutMs => with_network(
            request,
            NetworkView { connect_timeout_ms: number as u64, ..request.config.network },
        ),
        Setting::ReadTimeoutMs => with_network(
            request,
            NetworkView { read_timeout_ms: number as u64, ..request.config.network },
        ),
        Setting::WriteTimeoutMs => with_network(
            request,
            NetworkView { write_timeout_ms: number as u64, ..request.config.network },
        ),
        Setting::SyncIntervalMs => with_sync(
            request,
            SyncConfig { interval_ms: number as u64, ..request.config.sync },
        ),
        Setting::SyncMaxBlocks => with_sync(
            request,
            SyncConfig { max_blocks_per_response: number as usize, ..request.config.sync },
        ),
        Setting::SyncLocatorHashes => with_sync(
            request,
            SyncConfig { locator_hashes: number as usize, ..request.config.sync },
        ),
        Setting::Seed => NodeRequestView { training_seed: number as u64, ..request },
        Setting::Entropy => NodeRequestView { sampling_entropy: number as u64, ..request },
        _ => request,
    }
}

/// The request with an address set, or added to the peers.
pub open spec fn with_addr(
    request: NodeRequestView,
    setting: Setting,
    addr: PeerAddr,
) -> NodeRequestView {
    match setting {
        Setting::Listen => with_config(
            request,
            NodeConfigView { listen_addr: addr, ..request.config },
        ),
        Setting::Advertise => with_config(
            request,
            NodeConfigView { advertise_addr: Some(addr), ..request.config },
        ),
        Setting::Peer => with_config(
            request,
            NodeConfigView { peers: request.config.peers.push(addr), ..request.config },
        ),
        _ => request,
    }
}

/// The request with a text set.
pub open spec fn with_text(
    request: NodeRequestView,
    setting: Setting,
    held: Seq<char>,
) -> NodeRequestView {
    match setting {
        Setting::NodeId => with_config(
            request,
            NodeConfigView { node_id: held, ..request.config },
        ),
        Setting::NetworkId => with_wire(
            request,
            WireView { network_id: held, ..request.config.network.wire },
        ),
        Setting::DataDir => with_config(
            request,
            NodeConfigView { storage: Some(held), ..request.config },
        ),
        _ => request,
    }
}

/// A setting that takes an address.
pub open spec fn takes_addr(setting: Setting) -> bool {
    setting == Setting::Listen || setting == Setting::Advertise || setting == Setting::Peer
}

/// The request with a setting changed; none where the value cannot be used.
pub open spec fn with_setting(
    request: NodeRequestView,
    setting: Setting,
    value: ArgumentView,
) -> Option<NodeRequestView> {
    if let Some(limit) = number_limit(setting) {
        match decimal::spec_parse_unsigned(value.text, limit) {
            Some(number) => Some(with_number(request, setting, number)),
            None => None,
        }
    } else if takes_addr(setting) {
        match value.addr {
            Some(addr) => Some(with_addr(request, setting, addr)),
            None => None,
        }
    } else {
        Some(with_text(request, setting, value.text))
    }
}

/// The request with a switch set.
pub open spec fn with_switch(
    request: NodeRequestView,
    switch: Switch,
    on: bool,
) -> NodeRequestView {
    match switch {
        Switch::Mine => NodeRequestView { mine: on, ..request },
        Switch::MineOnce => NodeRequestView { mine_once: on, ..request },
        Switch::NoSync => with_sync(request, SyncConfig { enabled: !on, ..request.config.sync }),
    }
}

/// The largest number that a setting takes.
fn limit_of(setting: Setting) -> (limit: Option<u64>)
    ensures
        match limit {
            Some(max) => number_limit(setting) == Some(max as nat),
            None => number_limit(setting) is None,
        },
{
    match setting {
        Setting::NodeId | Setting::NetworkId | Setting::DataDir => None,
        Setting::Listen | Setting::Advertise | Setting::Peer => None,
        Setting::ProtocolVersion | Setting::Difficulty => Some(u32::MAX as u64),
        Setting::Steps | Setting::Samples | Setting::MaxMessageBytes | Setting::MaxPeers => Some(
            usize::MAX as u64,
        ),
        Setting::MaxInboundConnections
        | Setting::SyncMaxBlocks
        | Setting::SyncLocatorHashes => Some(usize::MAX as u64),
        _ => Some(u64::MAX),
    }
}

impl NodeRequest {
    /// The request that nothing has been changed in.
    pub fn new() -> (request: Self)
        ensures
            request@ == default_request(),
    {
        NodeRequest {
            config: NodeConfig::with_defaults("chesscoin-node", PeerAddr::localhost(9333)),
            mine: false,
            mine_interval_ms: 5_000,
            mine_once: false,
            run_ms: 0,
            training_seed: 42,
            sampling_entropy: 2_026,
        }
    }

    /// Sets a number.
    fn set_number(&mut self, setting: Setting, number: u64)
        requires
            number_limit(setting) matches Some(limit) && number <= limit,
        ensures
            final(self)@ == with_number(old(self)@, setting, number as nat),
    {
        match setting {
            Setting::ProtocolVersion => {
                self.config.network.wire.protocol_version = number as u32;
            },
            Setting::MineIntervalMs => {
                self.mine_interval_ms = number;
            },
            Setting::RunMs => {
                self.run_ms = number;
            },
            Setting::Steps => {
                self.config.chain.steps_per_block = number as usize;
            },
            Setting::Samples => {
                self.config.chain.samples_per_block = number as usize;
            },
            Setting::Difficulty => {
                self.config.chain.difficulty_zero_bits = number as u32;
            },
            Setting::MaxMessageBytes => {
                self.config.network.max_message_bytes = number as usize;
            },
            Setting::MaxPeers => {
                self.config.network.max_peers = number as usize;
            },
            Setting::MaxInboundConnections => {
                self.config.network.max_inbound_connections = number as usize;
            },
            Setting::ConnectTimeoutMs => {
                self.config.network.connect_timeout_ms = number;
            },
            Setting::ReadTimeoutMs => {
                self.config.network.read_timeout_ms = number;
            },
            Setting::WriteTimeoutMs => {
                self.config.network.write_timeout_ms = number;
            },
            Setting::SyncIntervalMs => {
                self.config.sync.interval_ms = number;
            },
            Setting::SyncMaxBlocks => {
                self.config.sync.max_blocks_per_response = number as usize;
            },
            Setting::SyncLocatorHashes => {
                self.config.sync.locator_hashes = number as usize;
            },
            Setting::Seed => {
                self.training_seed = number;
            },
            Setting::Entropy => {
                self.sampling_entropy = number;
            },
            _ => {},
        }
    }

    /// Sets an address, or adds it to the peers.
    fn set_addr(&mut self, setting: Setting, addr: PeerAddr)
        ensures
            final(self)@ == with_addr(old(self)@, setting, addr),
    {
        match setting {
            Setting::Listen => {
                self.config.listen_addr = addr;
            },
            Setting::Advertise => {
                self.config.advertise_addr = Some(addr);
            },
            Setting::Peer => {
                self.config.peers.push(addr);
            },
            _ => {},
        }
    }

    /// Sets a text.
    fn set_text(&mut self, setting: Setting, held: &str)
        ensures
            final(self)@ == with_text(old(self)@, setting, held@),
    {
        match setting {
            Setting::NodeId => {
                self.config.node_id = held.to_string();
            },
            Setting::NetworkId => {
                self.config.network.wire.network_id = held.to_string();
            },
            Setting::DataDir => {
                self.config.storage = Some(StorageConfig { data_dir: held.to_string() });
            },
            _ => {},
        }
    }

    /// Changes a setting, where the value can be used.
    fn apply_setting(&mut self, setting: Setting, value: &Argument) -> (usable: bool)
        ensures
            usable == (with_setting(old(self)@, setting, value@) is Some),
            final(self)@ == (match with_setting(old(self)@, setting, value@) {
                Some(request) => request,
                None => old(self)@,
            }),
    {
        if let Some(limit) = limit_of(setting) {
            let chars: Vec<char> = text::chars_of(value.text.as_str());
            return match decimal::parse_unsigned(chars.as_slice(), limit) {
                Some(number) => {
                    self.set_number(setting, number);
                    true
                },
                None => false,
            };
        }
        match setting {
            Setting::Listen | Setting::Advertise | Setting::Peer => match value.addr {
                Some(addr) => {
                    self.set_addr(setting, addr);
                    true
                },
                None => false,
            },
            _ => {
                self.set_text(setting, value.text.as_str());
                true
            },
        }
    }

    /// Sets a switch.
    fn apply_switch(&mut self, switch: Switch, on: bool)
        ensures
            final(self)@ == with_switch(old(self)@, switch, on),
    {
        match switch {
            Switch::Mine => {
                self.mine = on;
            },
            Switch::MineOnce => {
                self.mine_once = on;
            },
            Switch::NoSync => {
                self.config.sync.enabled = !on;
            },
        }
    }
}

/// The name that an option of the command line has in a configuration file: without the two dashes
/// before it, and with an underscore for every other dash. There is none for a word that does not
/// begin so, or that holds an underscore.
pub open spec fn option_name(word: Seq<char>) -> Option<Seq<char>> {
    if word.len() < 2 || word[0] != '-' || word[1] != '-' || word.contains('_') {
        None
    } else {
        Some(
            word.skip(2).map_values(
                |c: char|
                    if c == '-' {
                        '_'
                    } else {
                        c
                    },
            ),
        )
    }
}

/// Gives the name that an option has in a configuration file.
fn name_of_option(word: &[char]) -> (name: Option<Vec<char>>)
    ensures
        match name {
            Some(chars) => option_name(word@) == Some(chars@),
            None => option_name(word@) is None,
        },
{
    if word.len() < 2 || word[0] != '-' || word[1] != '-' {
        return None;
    }
    let mut name: Vec<char> = Vec::new();
    let mut index: usize = 0;
    let ghost shown = |c: char|
        if c == '-' {
            '_'
        } else {
            c
        };
    while index < word.len()
        invariant
            index <= word@.len(),
            shown == (|c: char|
                if c == '-' {
                    '_'
                } else {
                    c
                }),
            word@.len() >= 2,
            forall|i: int| 0 <= i < index ==> #[trigger] word@[i] != '_',
            index < 2 ==> name@ == Seq::<char>::empty(),
            index >= 2 ==> name@ == word@.skip(2).map_values(shown).take(index - 2),
        decreases word@.len() - index,
    {
        let c: char = word[index];
        if c == '_' {
            assert(word@.contains(word@[index as int]));
            return None;
        }
        if index >= 2 {
            name.push(
                if c == '-' {
                    '_'
                } else {
                    c
                },
            );
            assert(name@ =~= word@.skip(2).map_values(shown).take(index - 1));
        }
        index += 1;
        if index == 2 {
            assert(name@ =~= word@.skip(2).map_values(shown).take(0));
        }
    }
    assert(word@.skip(2).map_values(shown).take(index - 2) =~= word@.skip(2).map_values(shown));
    Some(name)
}

/// What the options of a node ask for.
#[derive(Debug, PartialEq, Eq)]
pub enum ParsedNode {
    Help,
    Run(NodeRequest),
}

/// What the options of a node ask for.
pub enum ParsedNodeView {
    Help,
    Run(NodeRequestView),
}

impl View for ParsedNode {
    type V = ParsedNodeView;

    open spec fn view(&self) -> ParsedNodeView {
        match self {
            ParsedNode::Help => ParsedNodeView::Help,
            ParsedNode::Run(request) => ParsedNodeView::Run(request@),
        }
    }
}

/// The setting that an option of the command line names.
pub open spec fn setting_option(word: Seq<char>) -> Option<Setting> {
    match option_name(word) {
        Some(name) => setting_named(name),
        None => None,
    }
}

/// The switch that an option of the command line names.
pub open spec fn switch_option(word: Seq<char>) -> Option<Switch> {
    match option_name(word) {
        Some(name) => switch_named(name),
        None => None,
    }
}

/// What reading the remaining options gives, starting from what has been read so far. A
/// configuration file is named here, and read elsewhere.
pub open spec fn options_from(request: NodeRequestView, args: Seq<ArgumentView>) -> Result<
    ParsedNodeView,
    Seq<char>,
>
    decreases args.len(),
{
    let word: Seq<char> = args[0].text;
    if args.len() == 0 {
        Ok(ParsedNodeView::Run(request))
    } else if word == "-h"@ || word == "--help"@ {
        Ok(ParsedNodeView::Help)
    } else if word == "--config"@ {
        if args.len() < 2 {
            Err(command::missing_value(word))
        } else {
            options_from(request, args.skip(2))
        }
    } else if let Some(switch) = switch_option(word) {
        options_from(with_switch(request, switch, true), args.skip(1))
    } else if let Some(setting) = setting_option(word) {
        if args.len() < 2 {
            Err(command::missing_value(word))
        } else {
            match with_setting(request, setting, args[1]) {
                Some(changed) => options_from(changed, args.skip(2)),
                None => Err(command::invalid_value(word)),
            }
        }
    } else {
        Err("unknown option '"@ + word + "'"@)
    }
}

fn complain(word: &str, complaint: &str) -> (message: String)
    ensures
        message@ == word@ + complaint@,
{
    let mut message: String = word.to_string();
    message.append(complaint);
    message
}

/// Reads the options of a node over what has been set before.
pub fn parse_node_options(request: NodeRequest, args: &[Argument]) -> (result: Result<
    ParsedNode,
    String,
>)
    ensures
        match result {
            Ok(parsed) => options_from(request@, argument_views(args@)) == Ok::<
                ParsedNodeView,
                Seq<char>,
            >(parsed@),
            Err(message) => options_from(request@, argument_views(args@)) == Err::<
                ParsedNodeView,
                Seq<char>,
            >(message@),
        },
{
    let ghost views: Seq<ArgumentView> = argument_views(args@);
    let ghost start: NodeRequestView = request@;
    let mut held: NodeRequest = request;
    let mut index: usize = 0;
    assert(views.skip(0) =~= views);
    while index < args.len()
        invariant
            index <= args@.len(),
            views == argument_views(args@),
            start == request@,
            options_from(start, views) == options_from(held@, views.skip(index as int)),
        decreases args@.len() - index,
    {
        let ghost rest: Seq<ArgumentView> = views.skip(index as int);
        assert(rest[0] == args@[index as int]@);
        let word: &str = args[index].text.as_str();
        if text::same_text(word, "-h") || text::same_text(word, "--help") {
            return Ok(ParsedNode::Help);
        }
        if text::same_text(word, "--config") {
            if args.len() - index < 2 {
                return Err(complain(word, " requires a value"));
            }
            assert(rest.skip(2) =~= views.skip(index + 2));
            index += 2;
            continue;
        }
        let chars: Vec<char> = text::chars_of(word);
        let name: Vec<char> = match name_of_option(chars.as_slice()) {
            Some(name) => name,
            None => return Err(text::concat3("unknown option '", word, "'")),
        };
        if let Some(switch) = find_switch(name.as_slice()) {
            held.apply_switch(switch, true);
            assert(rest.skip(1) =~= views.skip(index + 1));
            index += 1;
            continue;
        }
        let setting: Setting = match find_setting(name.as_slice()) {
            Some(setting) => setting,
            None => return Err(text::concat3("unknown option '", word, "'")),
        };
        if args.len() - index < 2 {
            return Err(complain(word, " requires a value"));
        }
        assert(rest[1] == args@[index + 1]@);
        if !held.apply_setting(setting, &args[index + 1]) {
            return Err(complain(word, " received an invalid value"));
        }
        assert(rest.skip(2) =~= views.skip(index + 2));
        index += 2;
    }
    assert(views.skip(index as int) =~= Seq::<ArgumentView>::empty());
    Ok(ParsedNode::Run(held))
}

/// The position of the first equals sign; the length where there is none.
pub open spec fn equals_at(line: Seq<char>) -> nat
    decreases line.len(),
{
    if line.len() == 0 || line[0] == '=' {
        0
    } else {
        1 + equals_at(line.skip(1))
    }
}

/// What reading a line of a configuration file gives: nothing from a blank line, else the texts
/// before and behind the first equals sign.
pub open spec fn pair_in(line: Seq<char>) -> Option<Option<(Seq<char>, Seq<char>)>> {
    let at: int = equals_at(line) as int;
    if storage::is_blank(line) {
        Some(None)
    } else if at == line.len() {
        None
    } else {
        Some(Some((line.take(at), line.skip(at + 1))))
    }
}

/// The complaint about a line without an equals sign.
pub open spec fn bad_line(number: nat) -> Seq<char> {
    "config line "@ + decimal::int_text(number as int) + " must be key=value"@
}

/// What reading the lines of a configuration file gives: the pairs in order, or the complaint
/// about the first line without an equals sign.
pub open spec fn pairs_in(lines: Seq<Seq<char>>) -> Result<
    Seq<(Seq<char>, Seq<char>)>,
    Seq<char>,
>
    decreases lines.len(),
{
    if lines.len() == 0 {
        Ok(Seq::empty())
    } else {
        match pairs_in(lines.drop_last()) {
            Ok(pairs) => match pair_in(message::trimmed(lines.last())) {
                Some(Some(pair)) => Ok(pairs.push(pair)),
                Some(None) => Ok(pairs),
                None => Err(bad_line(lines.len())),
            },
            Err(message) => Err(message),
        }
    }
}

/// The texts of a list of pairs.
pub open spec fn pair_views(pairs: Seq<(String, String)>) -> Seq<(Seq<char>, Seq<char>)> {
    pairs.map_values(|pair: (String, String)| (pair.0@, pair.1@))
}

/// The position of the first equals sign never lies behind the end.
proof fn lemma_equals_at(line: Seq<char>, index: int)
    requires
        0 <= index <= line.len(),
        forall|i: int| 0 <= i < index ==> #[trigger] line[i] != '=',
    ensures
        equals_at(line) == index + equals_at(line.skip(index)),
    decreases index,
{
    if index > 0 {
        let rest: Seq<char> = line.skip(1);
        assert(line[0] != '=');
        assert forall|i: int| 0 <= i < index - 1 implies #[trigger] rest[i] != '=' by {
            assert(rest[i] == line[i + 1]);
        }
        lemma_equals_at(rest, index - 1);
        assert(rest.skip(index - 1) =~= line.skip(index));
    } else {
        assert(line.skip(0) =~= line);
    }
}

fn find_equals(line: &[char]) -> (at: usize)
    ensures
        at == equals_at(line@),
        at <= line@.len(),
{
    let mut index: usize = 0;
    while index < line.len()
        invariant
            index <= line@.len(),
            forall|i: int| 0 <= i < index ==> #[trigger] line@[i] != '=',
        decreases line@.len() - index,
    {
        proof {
            lemma_equals_at(line@, index as int);
        }
        if line[index] == '=' {
            assert(line@.skip(index as int)[0] == '=');
            return index;
        }
        index += 1;
    }
    proof {
        lemma_equals_at(line@, index as int);
        assert(line@.skip(index as int) =~= Seq::<char>::empty());
    }
    index
}

/// A complaint about one of the first lines is the complaint about the whole file.
proof fn lemma_first_bad_line(lines: Seq<Seq<char>>, count: int)
    requires
        0 <= count <= lines.len(),
        pairs_in(lines.take(count)) is Err,
    ensures
        pairs_in(lines) == pairs_in(lines.take(count)),
    decreases lines.len(),
{
    if count == lines.len() {
        assert(lines.take(count) =~= lines);
    } else {
        assert(lines.drop_last().take(count) =~= lines.take(count));
        lemma_first_bad_line(lines.drop_last(), count);
    }
}

/// Reads the pairs of a configuration file.
pub fn parse_config(held: &str) -> (result: Result<Vec<(String, String)>, String>)
    ensures
        match result {
            Ok(pairs) => pairs_in(text::split(held@, '\n')) == Ok::<
                Seq<(Seq<char>, Seq<char>)>,
                Seq<char>,
            >(pair_views(pairs@)),
            Err(message) => pairs_in(text::split(held@, '\n')) == Err::<
                Seq<(Seq<char>, Seq<char>)>,
                Seq<char>,
            >(message@),
        },
{
    let chars: Vec<char> = text::chars_of(held);
    let lines: Vec<Vec<char>> = text::split_chars(chars.as_slice(), '\n');
    let ghost texts: Seq<Seq<char>> = text::contents(lines@);
    let mut pairs: Vec<(String, String)> = Vec::new();
    let mut index: usize = 0;
    assert(texts.take(0) =~= Seq::<Seq<char>>::empty());
    assert(pair_views(pairs@) =~= Seq::<(Seq<char>, Seq<char>)>::empty());
    while index < lines.len()
        invariant
            index <= lines@.len(),
            texts == text::contents(lines@),
            texts == text::split(held@, '\n'),
            pairs_in(texts.take(index as int)) == Ok::<Seq<(Seq<char>, Seq<char>)>, Seq<char>>(
                pair_views(pairs@),
            ),
        decreases lines@.len() - index,
    {
        assert(texts.take(index + 1).drop_last() =~= texts.take(index as int));
        assert(texts[index as int] == lines@[index as int]@);
        let raw: String = text::string_of(lines[index].as_slice());
        let line: Vec<char> = message::trim_line_end(raw.as_str());
        if !storage::blank(line.as_slice()) {
            let at: usize = find_equals(line.as_slice());
            if at == line.len() {
                let number: String = decimal::u64_text(index as u64 + 1);
                proof {
                    lemma_first_bad_line(texts, index + 1);
                }
                return Err(text::concat3("config line ", number.as_str(), " must be key=value"));
            }
            let key: String = text::string_of(vstd::slice::slice_subrange(line.as_slice(), 0, at));
            let value: String = text::string_of(
                vstd::slice::slice_subrange(line.as_slice(), at + 1, line.len()),
            );
            let ghost before: Seq<(String, String)> = pairs@;
            assert(key@ =~= line@.take(at as int));
            assert(value@ =~= line@.skip(at + 1));
            pairs.push((key, value));
            assert(pair_views(pairs@) =~= pair_views(before).push((key@, value@)));
        }
        index += 1;
    }
    assert(texts.take(index as int) =~= texts);
    Ok(pairs)
}

/// A setting of a configuration file.
#[derive(Debug, PartialEq, Eq)]
pub struct ConfigEntry {
    pub key: String,
    pub value: Argument,
}

/// A setting of a configuration file.
pub struct EntryView {
    pub key: Seq<char>,
    pub value: ArgumentView,
}

impl View for ConfigEntry {
    type V = EntryView;

    open spec fn view(&self) -> EntryView {
        EntryView { key: self.key@, value: self.value@ }
    }
}

/// The settings of a configuration file.
pub open spec fn entry_views(entries: Seq<ConfigEntry>) -> Seq<EntryView> {
    entries.map_values(|entry: ConfigEntry| entry@)
}

/// The request after one setting of a configuration file.
pub open spec fn after_entry(request: NodeRequestView, entry: EntryView) -> Result<
    NodeRequestView,
    Seq<char>,
> {
    if let Some(switch) = switch_named(entry.key) {
        if entry.value.text == "true"@ {
            Ok(with_switch(request, switch, true))
        } else if entry.value.text == "false"@ {
            Ok(with_switch(request, switch, false))
        } else {
            Err(command::invalid_value(entry.key))
        }
    } else if let Some(setting) = setting_named(entry.key) {
        match with_setting(request, setting, entry.value) {
            Some(changed) => Ok(changed),
            None => Err(command::invalid_value(entry.key)),
        }
    } else {
        Err("unknown config key '"@ + entry.key + "'"@)
    }
}

/// The request after the settings of a configuration file, or the first complaint.
pub open spec fn after_entries(request: NodeRequestView, entries: Seq<EntryView>) -> Result<
    NodeRequestView,
    Seq<char>,
>
    decreases entries.len(),
{
    if entries.len() == 0 {
        Ok(request)
    } else {
        match after_entries(request, entries.drop_last()) {
            Ok(before) => after_entry(before, entries.last()),
            Err(message) => Err(message),
        }
    }
}

/// What a request holds once the settings of a configuration file have been read: those before the
/// first complaint.
pub open spec fn settled(request: NodeRequestView, entries: Seq<EntryView>) -> NodeRequestView
    decreases entries.len(),
{
    if entries.len() == 0 {
        request
    } else {
        match after_entries(request, entries) {
            Ok(after) => after,
            Err(_) => settled(request, entries.drop_last()),
        }
    }
}

/// A complaint about one of the first settings is the complaint about all of them, and no later
/// setting is taken.
proof fn lemma_first_bad_entry(request: NodeRequestView, entries: Seq<EntryView>, count: int)
    requires
        0 <= count <= entries.len(),
        after_entries(request, entries.take(count)) is Err,
    ensures
        after_entries(request, entries) == after_entries(request, entries.take(count)),
        settled(request, entries) == settled(request, entries.take(count)),
    decreases entries.len(),
{
    if count == entries.len() {
        assert(entries.take(count) =~= entries);
    } else {
        assert(entries.drop_last().take(count) =~= entries.take(count));
        lemma_first_bad_entry(request, entries.drop_last(), count);
    }
}

impl NodeRequest {
    /// Changes one setting as a configuration file says.
    fn apply_entry(&mut self, entry: &ConfigEntry) -> (result: Result<(), String>)
        ensures
            match result {
                Ok(()) => after_entry(old(self)@, entry@) == Ok::<NodeRequestView, Seq<char>>(
                    final(self)@,
                ),
                Err(message) => after_entry(old(self)@, entry@) == Err::<
                    NodeRequestView,
                    Seq<char>,
                >(message@) && final(self)@ == old(self)@,
            },
    {
        let name: Vec<char> = text::chars_of(entry.key.as_str());
        if let Some(switch) = find_switch(name.as_slice()) {
            if text::same_text(entry.value.text.as_str(), "true") {
                self.apply_switch(switch, true);
                return Ok(());
            }
            if text::same_text(entry.value.text.as_str(), "false") {
                self.apply_switch(switch, false);
                return Ok(());
            }
            return Err(complain(entry.key.as_str(), " received an invalid value"));
        }
        if let Some(setting) = find_setting(name.as_slice()) {
            if self.apply_setting(setting, &entry.value) {
                return Ok(());
            }
            return Err(complain(entry.key.as_str(), " received an invalid value"));
        }
        Err(text::concat3("unknown config key '", entry.key.as_str(), "'"))
    }

    /// Changes settings as a configuration file says, up to the first one that cannot be used.
    pub fn apply_config(&mut self, entries: &[ConfigEntry]) -> (result: Result<(), String>)
        ensures
            final(self)@ == settled(old(self)@, entry_views(entries@)),
            match result {
                Ok(()) => after_entries(old(self)@, entry_views(entries@)) == Ok::<
                    NodeRequestView,
                    Seq<char>,
                >(final(self)@),
                Err(message) => after_entries(old(self)@, entry_views(entries@)) == Err::<
                    NodeRequestView,
                    Seq<char>,
                >(message@),
            },
    {
        let ghost views: Seq<EntryView> = entry_views(entries@);
        let mut index: usize = 0;
        assert(views.take(0) =~= Seq::<EntryView>::empty());
        while index < entries.len()
            invariant
                index <= entries@.len(),
                views == entry_views(entries@),
                after_entries(old(self)@, views.take(index as int)) == Ok::<
                    NodeRequestView,
                    Seq<char>,
                >(self@),
            decreases entries@.len() - index,
        {
            assert(views.take(index + 1).drop_last() =~= views.take(index as int));
            assert(views[index as int] == entries@[index as int]@);
            match self.apply_entry(&entries[index]) {
                Ok(()) => {},
                Err(message) => {
                    proof {
                        lemma_first_bad_entry(old(self)@, views, index + 1);
                        assert(settled(old(self)@, views.take(index as int)) == self@);
                    }
                    return Err(message);
                },
            }
            index += 1;
        }
        assert(views.take(index as int) =~= views);
        Ok(())
    }
}

/// The request as a node is started with it: with a miner where it mines continuously.
pub open spec fn finished(request: NodeRequestView) -> NodeRequestView {
    with_config(
        request,
        NodeConfigView {
            miner: if request.mine {
                Some(MinerConfig { interval_ms: request.mine_interval_ms })
            } else {
                None
            },
            ..request.config
        },
    )
}

/// What the settings of a configuration file and the options of a node ask for: options override
/// settings, and a block cannot have more samples than steps.
pub open spec fn spec_node_request(entries: Seq<EntryView>, args: Seq<ArgumentView>) -> Result<
    ParsedNodeView,
    Seq<char>,
> {
    match after_entries(default_request(), entries) {
        Ok(request) => match options_from(request, args) {
            Ok(ParsedNodeView::Run(read)) => if read.config.chain.samples_per_block
                > read.config.chain.steps_per_block {
                Err("--samples must be less than or equal to --steps"@)
            } else {
                Ok(ParsedNodeView::Run(finished(read)))
            },
            other => other,
        },
        Err(message) => Err(message),
    }
}

/// Reads what a node is asked to do: first the settings of a configuration file, then the options.
pub fn parse_node_request(entries: &[ConfigEntry], args: &[Argument]) -> (result: Result<
    ParsedNode,
    String,
>)
    ensures
        match result {
            Ok(parsed) => spec_node_request(entry_views(entries@), argument_views(args@)) == Ok::<
                ParsedNodeView,
                Seq<char>,
            >(parsed@),
            Err(message) => spec_node_request(entry_views(entries@), argument_views(args@))
                == Err::<ParsedNodeView, Seq<char>>(message@),
        },
{
    let mut request: NodeRequest = NodeRequest::new();
    match request.apply_config(entries) {
        Ok(()) => {},
        Err(message) => return Err(message),
    }
    match parse_node_options(request, args) {
        Ok(ParsedNode::Run(read)) => {
            if read.config.chain.samples_per_block > read.config.chain.steps_per_block {
                return Err("--samples must be less than or equal to --steps".to_string());
            }
            let mut request: NodeRequest = read;
            request.config.miner =
            if request.mine {
                Some(MinerConfig { interval_ms: request.mine_interval_ms })
            } else {
                None
            };
            Ok(ParsedNode::Run(request))
        },
        other => other,
    }
}

/// Where the options of a node say that its configuration file is: the last place that they name.
pub open spec fn spec_config_path(args: Seq<ArgumentView>, found: Option<Seq<char>>) -> Option<
    Seq<char>,
>
    decreases args.len(),
{
    if args.len() == 0 {
        found
    } else if args[0].text == "--config"@ {
        if args.len() < 2 {
            found
        } else {
            spec_config_path(args.skip(2), Some(args[1].text))
        }
    } else if setting_option(args[0].text) is Some && args.len() >= 2 {
        spec_config_path(args.skip(2), found)
    } else {
        spec_config_path(args.skip(1), found)
    }
}

/// The text of a path that may be missing.
pub open spec fn path_view(path: Option<String>) -> Option<Seq<char>> {
    match path {
        Some(held) => Some(held@),
        None => None,
    }
}

/// Finds where the options of a node say that its configuration file is.
pub fn config_path(args: &[Argument]) -> (path: Option<String>)
    ensures
        path_view(path) == spec_config_path(argument_views(args@), None),
{
    let ghost views: Seq<ArgumentView> = argument_views(args@);
    let mut found: Option<String> = None;
    let mut index: usize = 0;
    assert(views.skip(0) =~= views);
    while index < args.len()
        invariant
            index <= args@.len(),
            views == argument_views(args@),
            spec_config_path(views, None) == spec_config_path(
                views.skip(index as int),
                path_view(found),
            ),
        decreases args@.len() - index,
    {
        let ghost rest: Seq<ArgumentView> = views.skip(index as int);
        assert(rest[0] == args@[index as int]@);
        let word: &str = args[index].text.as_str();
        let chars: Vec<char> = text::chars_of(word);
        let takes_value: bool = match name_of_option(chars.as_slice()) {
            Some(name) => find_setting(name.as_slice()).is_some(),
            None => false,
        };
        if text::same_text(word, "--config") {
            if args.len() - index < 2 {
                return found;
            }
            assert(rest[1] == args@[index + 1]@);
            assert(rest.skip(2) =~= views.skip(index + 2));
            found = Some(args[index + 1].text.clone());
            index += 2;
        } else if takes_value && args.len() - index >= 2 {
            assert(rest.skip(2) =~= views.skip(index + 2));
            index += 2;
        } else {
            assert(rest.skip(1) =~= views.skip(index + 1));
            index += 1;
        }
    }
    assert(views.skip(index as int) =~= Seq::<ArgumentView>::empty());
    found
}

/// What is set later wins, so an option overrides the configuration file; only peers add up.
pub proof fn lemma_later_setting_wins(
    request: NodeRequestView,
    setting: Setting,
    earlier: ArgumentView,
    later: ArgumentView,
)
    requires
        setting != Setting::Peer,
        with_setting(request, setting, earlier) is Some,
    ensures
        with_setting(with_setting(request, setting, earlier)->0, setting, later) == with_setting(
            request,
            setting,
            later,
        ),
{
    if let Some(limit) = number_limit(setting) {
        if let (Some(first), Some(second)) = (
            decimal::spec_parse_unsigned(earlier.text, limit),
            decimal::spec_parse_unsigned(later.text, limit),
        ) {
            lemma_later_number_wins(request, setting, first, second);
        }
    }
}

proof fn lemma_later_number_wins(
    request: NodeRequestView,
    setting: Setting,
    earlier: nat,
    later: nat,
)
    ensures
        with_number(with_number(request, setting, earlier), setting, later) == with_number(
            request,
            setting,
            later,
        ),
{
}

} // verus!
