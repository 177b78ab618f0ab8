//! What a node is configured with.

use vstd::prelude::*;

use crate::application::ChainConfig;
use crate::wire::envelope;
use crate::wire::envelope::{WireView, PROTOCOL_VERSION};
use crate::wire::WireConfig;

verus! {

/// The address of a peer: an internet address and a port.
#[allow(inconsistent_fields)]
#[derive(Clone, Copy, Debug, PartialEq, Eq, Structural)]
pub enum PeerAddr {
    V4 { ip: u32, port: u16 },
    V6 { ip: u128, port: u16, flowinfo: u32, scope_id: u32 },
}

impl PeerAddr {
    /// The address names no host: it stands for every address of the machine.
    pub open spec fn spec_unspecified(self) -> bool {
        match self {
            PeerAddr::V4 { ip, .. } => ip == 0,
            PeerAddr::V6 { ip, .. } => ip == 0,
        }
    }

    pub fn is_unspecified(&self) -> (unspecified: bool)
        ensures
            unspecified == self.spec_unspecified(),
    {
        match self {
            PeerAddr::V4 { ip, .. } => *ip == 0,
            PeerAddr::V6 { ip, .. } => *ip == 0,
        }
    }

    /// The loopback address with the given port.
    pub fn localhost(port: u16) -> (addr: Self)
        ensures
            addr == (PeerAddr::V4 { ip: 0x7f00_0001, port }),
    {
        PeerAddr::V4 { ip: 0x7f00_0001, port }
    }
}

/// How a node mines.
#[derive(Clone, Copy, Debug, PartialEq, Eq, Structural)]
pub struct MinerConfig {
    pub interval_ms: u64,
}

impl Default for MinerConfig {
    fn default() -> (config: Self)
        ensures
            config == (MinerConfig { interval_ms: 5_000 }),
    {
        MinerConfig { interval_ms: 5_000 }
    }
}

/// Where a node keeps its blocks.
#[derive(Debug, PartialEq, Eq)]
pub struct StorageConfig {
    pub data_dir: String,
}

impl View for StorageConfig {
    type V = Seq<char>;

    open spec fn view(&self) -> Seq<char> {
        self.data_dir@
    }
}

impl Clone for StorageConfig {
    fn clone(&self) -> (copy: Self)
        ensures
            copy@ == self@,
    {
        StorageConfig { data_dir: self.data_dir.clone() }
    }
}

/// How a node catches up with its peers.
#[derive(Clone, Copy, Debug, PartialEq, Eq, Structural)]
pub struct SyncConfig {
    pub enabled: bool,
    pub interval_ms: u64,
    pub max_blocks_per_response: usize,
    pub locator_hashes: usize,
}

impl Default for SyncConfig {
    fn default() -> (config: Self)
        ensures
            config == (SyncConfig {
                enabled: true,
                interval_ms: 5_000,
                max_blocks_per_response: 128,
                locator_hashes: 32,
            }),
    {
        SyncConfig {
            enabled: true,
            interval_ms: 5_000,
            max_blocks_per_response: 128,
            locator_hashes: 32,
        }
    }
}

/// What a node expects of its connections.
#[derive(Debug, PartialEq, Eq)]
pub struct NetworkConfig {
    pub wire: WireConfig,
    pub max_message_bytes: usize,
    pub max_peers: usize,
    pub max_inbound_connections: usize,
    pub connect_timeout_ms: u64,
    pub read_timeout_ms: u64,
    pub write_timeout_ms: u64,
}

/// What a network configuration says.
#[verifier::ext_equal]
pub struct NetworkView {
    pub wire: WireView,
    pub max_message_bytes: usize,
    pub max_peers: usize,
    pub max_inbound_connections: usize,
    pub connect_timeout_ms: u64,
    pub read_timeout_ms: u64,
    pub write_timeout_ms: u64,
}

impl View for NetworkConfig {
    type V = NetworkView;

    open spec fn view(&self) -> NetworkView {
        NetworkView {
            wire: self.wire@,
            max_message_bytes: self.max_message_bytes,
            max_peers: self.max_peers,
            max_inbound_connections: self.max_inbound_connections,
            connect_timeout_ms: self.connect_timeout_ms,
            read_timeout_ms: self.read_timeout_ms,
            write_timeout_ms: self.write_timeout_ms,
        }
    }
}

impl Clone for NetworkConfig {
    fn clone(&self) -> (copy: Self)
        ensures
            copy@ == self@,
    {
        NetworkConfig {
            wire: self.wire.clone(),
            max_message_bytes: self.max_message_bytes,
            max_peers: self.max_peers,
            max_inbound_connections: self.max_inbound_connections,
            connect_timeout_ms: self.connect_timeout_ms,
            read_timeout_ms: self.read_timeout_ms,
            write_timeout_ms: self.write_timeout_ms,
        }
    }
}

/// The default network configuration.
pub open spec fn default_network() -> NetworkView {
    NetworkView {
        wire: WireView {
            network_id: "chesscoin-local"@,
            protocol_version: PROTOCOL_VERSION,
            chain_fingerprint: envelope::spec_fingerprint(
                ChainConfig { steps_per_block: 16, samples_per_block: 6, difficulty_zero_bits: 8 },
            ),
        },
        max_message_bytes: 1_048_576,
        max_peers: 64,
        max_inbound_connections: 64,
        connect_timeout_ms: 500,
        read_timeout_ms: 5_000,
        write_timeout_ms: 500,
    }
}

impl Default for NetworkConfig {
    fn default() -> (config: Self)
        ensures
            config@ == default_network(),
    {
        NetworkConfig {
            wire: WireConfig::default(),
            max_message_bytes: 1_048_576,
            max_peers: 64,
            max_inbound_connections: 64,
            connect_timeout_ms: 500,
            read_timeout_ms: 5_000,
            write_timeout_ms: 500,
        }
    }
}

/// Everything a node is started with.
#[derive(Debug, PartialEq, Eq)]
pub struct NodeConfig {
    pub node_id: String,
    pub listen_addr: PeerAddr,
    pub advertise_addr: Option<PeerAddr>,
    pub peers: Vec<PeerAddr>,
    pub chain: ChainConfig,
    pub mine_once_on_start: bool,
    pub miner: Option<MinerConfig>,
    pub storage: Option<StorageConfig>,
    pub network: NetworkConfig,
    pub sync: SyncConfig,
}

/// What a node configuration says.
#[verifier::ext_equal]
pub struct NodeConfigView {
    pub node_id: Seq<char>,
    pub listen_addr: PeerAddr,
    pub advertise_addr: Option<PeerAddr>,
    pub peers: Seq<PeerAddr>,
    pub chain: ChainConfig,
    pub mine_once_on_start: bool,
    pub miner: Option<MinerConfig>,
    pub storage: Option<Seq<char>>,
    pub network: NetworkView,
    pub sync: SyncConfig,
}

impl View for NodeConfig {
    type V = NodeConfigView;

    open spec fn view(&self) -> NodeConfigView {
        NodeConfigView {
            node_id: self.node_id@,
            listen_addr: self.listen_addr,
            advertise_addr: self.advertise_addr,
            peers: self.peers@,
            chain: self.chain,
            mine_once_on_start: self.mine_once_on_start,
            miner: self.miner,
            storage: match self.storage {
                Some(storage) => Some(storage@),
                None => None,
            },
            network: self.network@,
            sync: self.sync,
        }
    }
}

/// A default configuration with the given name and address.
pub open spec fn default_node(node_id: Seq<char>, listen_addr: PeerAddr) -> NodeConfigView {
    NodeConfigView {
        node_id,
        listen_addr,
        advertise_addr: None,
        peers: Seq::empty(),
        chain: ChainConfig { steps_per_block: 16, samples_per_block: 6, difficulty_zero_bits: 8 },
        mine_once_on_start: false,
        miner: None,
        storage: None,
        network: default_network(),
        sync: SyncConfig {
            enabled: true,
            interval_ms: 5_000,
            max_blocks_per_response: 128,
            locator_hashes: 32,
        },
    }
}

/// What keeps a node with this configuration from starting.
pub open spec fn config_fault(config: NodeConfigView) -> Option<Seq<char>> {
    if config.chain.difficulty_zero_bits > 256 {
        Some("difficulty_zero_bits must be at most 256"@)
    } else if config.network.write_timeout_ms == 0 {
        Some("write_timeout must be greater than zero"@)
    } else if config.network.max_inbound_connections == 0 {
        Some("max_inbound_connections must be greater than zero"@)
    } else if config.listen_addr.spec_unspecified() && config.advertise_addr is None {
        Some("advertise_addr is required when listen_addr is unspecified"@)
    } else {
        None
    }
}

/// Copies a list of addresses.
pub fn copy_addrs(addrs: &[PeerAddr]) -> (copy: Vec<PeerAddr>)
    ensures
        copy@ == addrs@,
{
    let mut copy: Vec<PeerAddr> = Vec::new();
    let mut index: usize = 0;
    while index < addrs.len()
        invariant
            index <= addrs@.len(),
            copy@ == addrs@.take(index as int),
        decreases addrs@.len() - index,
    {
        copy.push(addrs[index]);
        index += 1;
        assert(addrs@.take(index as int) =~= addrs@.take(index - 1).push(addrs@[index - 1]));
    }
    assert(addrs@.take(index as int) =~= addrs@);
    copy
}

/// Whether a list holds the address.
pub fn holds_addr(addrs: &[PeerAddr], addr: PeerAddr) -> (holds: bool)
    ensures
        holds == addrs@.contains(addr),
{
    let mut index: usize = 0;
    while index < addrs.len()
        invariant
            index <= addrs@.len(),
            forall|i: int| 0 <= i < index ==> #[trigger] addrs@[i] != addr,
        decreases addrs@.len() - index,
    {
        if addrs[index] == addr {
            assert(addrs@[index as int] == addr);
            return true;
        }
        index += 1;
    }
    false
}

impl Clone for NodeConfig {
    fn clone(&self) -> (copy: Self)
        ensures
            copy@ == self@,
    {
        NodeConfig {
            node_id: self.node_id.clone(),
            listen_addr: self.listen_addr,
            advertise_addr: self.advertise_addr,
            peers: copy_addrs(self.peers.as_slice()),
            chain: self.chain,
            mine_once_on_start: self.mine_once_on_start,
            miner: self.miner,
            storage: match &self.storage {
                Some(storage) => Some(storage.clone()),
                None => None,
            },
            network: self.network.clone(),
            sync: self.sync,
        }
    }
}

impl NodeConfig {
    /// A default configuration with the given name and address.
    pub fn with_defaults(node_id: &str, listen_addr: PeerAddr) -> (config: Self)
        ensures
            config@ == default_node(node_id@, listen_addr),
    {
        let config: NodeConfig = NodeConfig {
            node_id: node_id.to_string(),
            listen_addr,
            advertise_addr: None,
            peers: Vec::new(),
            chain: ChainConfig::default(),
            mine_once_on_start: false,
            miner: None,
            storage: None,
            network: NetworkConfig::default(),
            sync: SyncConfig::default(),
        };
        assert(config@ =~= default_node(node_id@, listen_addr));
        config
    }

    /// A default configuration on the loopback address, at a port that the system chooses.
    pub fn localhost_ephemeral(node_id: &str) -> (config: Self)
        ensures
            config@ == default_node(node_id@, PeerAddr::V4 { ip: 0x7f00_0001, port: 0 }),
    {
        NodeConfig::with_defaults(node_id, PeerAddr::localhost(0))
    }

    /// Checks what a node cannot start without.
    pub fn validate(&self) -> (result: Result<(), String>)
        ensures
            match result {
                Ok(()) => config_fault(self@) is None,
                Err(message) => config_fault(self@) == Some(message@),
            },
    {
        if self.chain.difficulty_zero_bits > 256 {
            return Err("difficulty_zero_bits must be at most 256".to_string());
        }
        if self.network.write_timeout_ms == 0 {
            return Err("write_timeout must be greater than zero".to_string());
        }
        if self.network.max_inbound_connections == 0 {
            return Err("max_inbound_connections must be greater than zero".to_string());
        }
        if self.listen_addr.is_unspecified() && self.advertise_addr.is_none() {
            return Err("advertise_addr is required when listen_addr is unspecified".to_string());
        }
        Ok(())
    }
}

} // verus!
