//! What the options and settings of a node change, told setting by setting.

use vstd::prelude::*;

use crate::cli::node;
use crate::cli::node::{
    ArgumentView, EntryView, NodeRequestView, ParsedNodeView, Setting, Switch,
};
use crate::decimal;
use crate::node::config;
use crate::node::setup_laws;
use crate::node::PeerAddr;
use crate::storage::format_laws;
use crate::text_laws;
use crate::wire::message;
use crate::wire::reading_laws;

verus! {

/// The name of a setting in a configuration file.
pub open spec fn name_of(setting: Setting) -> Seq<char> {
    match setting {
        Setting::NodeId => "node_id"@,
        Setting::Listen => "listen"@,
        Setting::Advertise => "advertise"@,
        Setting::Peer => "peer"@,
        Setting::NetworkId => "network_id"@,
        Setting::ProtocolVersion => "protocol_version"@,
        Setting::DataDir => "data_dir"@,
        Setting::MineIntervalMs => "mine_interval_ms"@,
        Setting::RunMs => "run_ms"@,
        Setting::Steps => "steps"@,
        Setting::Samples => "samples"@,
        Setting::Difficulty => "difficulty"@,
        Setting::MaxMessageBytes => "max_message_bytes"@,
        Setting::MaxPeers => "max_peers"@,
        Setting::MaxInboundConnections => "max_inbound_connections"@,
        Setting::ConnectTimeoutMs => "connect_timeout_ms"@,
        Setting::ReadTimeoutMs => "read_timeout_ms"@,
        Setting::WriteTimeoutMs => "write_timeout_ms"@,
        Setting::SyncIntervalMs => "sync_interval_ms"@,
        Setting::SyncMaxBlocks => "sync_max_blocks"@,
        Setting::SyncLocatorHashes => "sync_locator_hashes"@,
        Setting::Seed => "seed"@,
        Setting::Entropy => "entropy"@,
    }
}

/// The name of a switch in a configuration file.
pub open spec fn switch_name(switch: Switch) -> Seq<char> {
    match switch {
        Switch::Mine => "mine"@,
        Switch::MineOnce => "mine_once"@,
        Switch::NoSync => "no_sync"@,
    }
}

/// No two settings or switches share a name.
proof fn lemma_names_differ()
    ensures
        forall|left: Setting, right: Setting| #[trigger]
            name_of(left) == #[trigger] name_of(right) ==> left == right,
        forall|left: Switch, right: Switch| #[trigger]
            switch_name(left) == #[trigger] switch_name(right) ==> left == right,
{
    reveal_strlit("node_id");
    reveal_strlit("listen");
    reveal_strlit("advertise");
    reveal_strlit("peer");
    reveal_strlit("network_id");
    reveal_strlit("protocol_version");
    reveal_strlit("data_dir");
    reveal_strlit("mine_interval_ms");
    reveal_strlit("run_ms");
    reveal_strlit("steps");
    reveal_strlit("samples");
    reveal_strlit("difficulty");
    reveal_strlit("max_message_bytes");
    reveal_strlit("max_peers");
    reveal_strlit("max_inbound_connections");
    reveal_strlit("connect_timeout_ms");
    reveal_strlit("read_timeout_ms");
    reveal_strlit("write_timeout_ms");
    reveal_strlit("sync_interval_ms");
    reveal_strlit("sync_max_blocks");
    reveal_strlit("sync_locator_hashes");
    reveal_strlit("seed");
    reveal_strlit("entropy");
    reveal_strlit("mine");
    reveal_strlit("mine_once");
    reveal_strlit("no_sync");
    assert("protocol_version"@[0] != "mine_interval_ms"@[0]);
    assert("listen"@[0] != "run_ms"@[0]);
    assert("node_id"@[0] != "samples"@[0]);
    assert("network_id"@[0] != "difficulty"@[0]);
    assert("advertise"@[0] != "max_peers"@[0]);
    assert("protocol_version"@[0] != "write_timeout_ms"@[0]);
    assert("mine_interval_ms"@[0] != "write_timeout_ms"@[0]);
    assert("protocol_version"@[0] != "sync_interval_ms"@[0]);
    assert("mine_interval_ms"@[0] != "sync_interval_ms"@[0]);
    assert("write_timeout_ms"@[0] != "sync_interval_ms"@[0]);
    assert("read_timeout_ms"@[0] != "sync_max_blocks"@[0]);
    assert("peer"@[0] != "seed"@[0]);
    assert("node_id"@[0] != "entropy"@[0]);
    assert("samples"@[0] != "entropy"@[0]);
    assert("node_id"@.len() == 7);
    assert("listen"@.len() == 6);
    assert("advertise"@.len() == 9);
    assert("peer"@.len() == 4);
    assert("network_id"@.len() == 10);
    assert("protocol_version"@.len() == 16);
    assert("data_dir"@.len() == 8);
    assert("mine_interval_ms"@.len() == 16);
    assert("run_ms"@.len() == 6);
    assert("steps"@.len() == 5);
    assert("samples"@.len() == 7);
    assert("difficulty"@.len() == 10);
    assert("max_message_bytes"@.len() == 17);
    assert("max_peers"@.len() == 9);
    assert("max_inbound_connections"@.len() == 23);
    assert("connect_timeout_ms"@.len() == 18);
    assert("read_timeout_ms"@.len() == 15);
    assert("write_timeout_ms"@.len() == 16);
    assert("sync_interval_ms"@.len() == 16);
    assert("sync_max_blocks"@.len() == 15);
    assert("sync_locator_hashes"@.len() == 19);
    assert("seed"@.len() == 4);
    assert("entropy"@.len() == 7);
    assert("mine"@.len() == 4);
    assert("mine_once"@.len() == 9);
    assert("no_sync"@.len() == 7);
    assert forall|left: Setting, right: Setting| #[trigger] name_of(left) == #[trigger] name_of(
        right,
    ) implies left == right by {
        assert(name_of(left).len() == name_of(right).len());
    }
    assert forall|left: Switch, right: Switch| #[trigger] switch_name(
        left,
    ) == #[trigger] switch_name(right) implies left == right by {
        assert(switch_name(left).len() == switch_name(right).len());
    }
}

/// A name names a setting, or a switch, exactly where it is the name of it.
pub proof fn lemma_names_are_exact(name: Seq<char>, setting: Setting, switch: Switch)
    ensures
        node::setting_named(name) == Some(setting) <==> name == name_of(setting),
        node::switch_named(name) == Some(switch) <==> name == switch_name(switch),
{
    lemma_names_differ();
    if name == name_of(setting) {
        lemma_setting_is_found(name, setting);
    }
    if node::setting_named(name) is Some {
        assert(name == name_of(node::setting_named(name)->0));
    }
    if name == switch_name(switch) {
        assert(name == "mine"@ ==> name == switch_name(Switch::Mine));
        assert(name == "mine_once"@ ==> name == switch_name(Switch::MineOnce));
        assert(name == "no_sync"@ ==> name == switch_name(Switch::NoSync));
    }
}

proof fn lemma_setting_is_found(name: Seq<char>, setting: Setting)
    requires
        name == name_of(setting),
    ensures
        node::setting_named(name) == Some(setting),
{
    lemma_names_differ();
    assert(name == "node_id"@ ==> name_of(setting) == name_of(Setting::NodeId));
    assert(name == "listen"@ ==> name_of(setting) == name_of(Setting::Listen));
    assert(name == "advertise"@ ==> name_of(setting) == name_of(Setting::Advertise));
    assert(name == "peer"@ ==> name_of(setting) == name_of(Setting::Peer));
    assert(name == "network_id"@ ==> name_of(setting) == name_of(Setting::NetworkId));
    assert(name == "protocol_version"@ ==> name_of(setting) == name_of(Setting::ProtocolVersion));
    assert(name == "data_dir"@ ==> name_of(setting) == name_of(Setting::DataDir));
    assert(name == "mine_interval_ms"@ ==> name_of(setting) == name_of(Setting::MineIntervalMs));
    assert(name == "run_ms"@ ==> name_of(setting) == name_of(Setting::RunMs));
    assert(name == "steps"@ ==> name_of(setting) == name_of(Setting::Steps));
    assert(name == "samples"@ ==> name_of(setting) == name_of(Setting::Samples));
    assert(name == "difficulty"@ ==> name_of(setting) == name_of(Setting::Difficulty));
    assert(name == "max_message_bytes"@ ==> name_of(setting) == name_of(Setting::MaxMessageBytes));
    assert(name == "max_peers"@ ==> name_of(setting) == name_of(Setting::MaxPeers));
    assert(name == "max_inbound_connections"@ ==> name_of(setting) == name_of(
        Setting::MaxInboundConnections,
    ));
    assert(name == "connect_timeout_ms"@ ==> name_of(setting) == name_of(
        Setting::ConnectTimeoutMs,
    ));
    assert(name == "read_timeout_ms"@ ==> name_of(setting) == name_of(Setting::ReadTimeoutMs));
    assert(name == "write_timeout_ms"@ ==> name_of(setting) == name_of(Setting::WriteTimeoutMs));
    assert(name == "sync_interval_ms"@ ==> name_of(setting) == name_of(Setting::SyncIntervalMs));
    assert(name == "sync_max_blocks"@ ==> name_of(setting) == name_of(Setting::SyncMaxBlocks));
    assert(name == "sync_locator_hashes"@ ==> name_of(setting) == name_of(
        Setting::SyncLocatorHashes,
    ));
    assert(name == "seed"@ ==> name_of(setting) == name_of(Setting::Seed));
    assert(name == "entropy"@ ==> name_of(setting) == name_of(Setting::Entropy));
}

/// The numbers of a request in a row.
pub open spec fn row(request: NodeRequestView) -> Seq<int> {
    seq![
        request.config.network.wire.protocol_version as int,
        request.mine_interval_ms as int,
        request.run_ms as int,
        request.config.chain.steps_per_block as int,
        request.config.chain.samples_per_block as int,
        request.config.chain.difficulty_zero_bits as int,
        request.config.network.max_message_bytes as int,
        request.config.network.max_peers as int,
        request.config.network.max_inbound_connections as int,
        request.config.network.connect_timeout_ms as int,
        request.config.network.read_timeout_ms as int,
        request.config.network.write_timeout_ms as int,
        request.config.sync.interval_ms as int,
        request.config.sync.max_blocks_per_response as int,
        request.config.sync.locator_hashes as int,
        request.training_seed as int,
        request.sampling_entropy as int,
    ]
}

/// The greatest numbers that stand in such a row.
pub open spec fn most() -> Seq<int> {
    seq![
        u32::MAX as int,
        u64::MAX as int,
        u64::MAX as int,
        usize::MAX as int,
        usize::MAX as int,
        u32::MAX as int,
        usize::MAX as int,
        usize::MAX as int,
        usize::MAX as int,
        u64::MAX as int,
        u64::MAX as int,
        u64::MAX as int,
        u64::MAX as int,
        usize::MAX as int,
        usize::MAX as int,
        u64::MAX as int,
        u64::MAX as int,
    ]
}

/// Where the number of a setting stands in the row; nowhere where it takes no number.
pub open spec fn place(setting: Setting) -> int {
    match setting {
        Setting::ProtocolVersion => 0,
        Setting::MineIntervalMs => 1,
        Setting::RunMs => 2,
        Setting::Steps => 3,
        Setting::Samples => 4,
        Setting::Difficulty => 5,
        Setting::MaxMessageBytes => 6,
        Setting::MaxPeers => 7,
        Setting::MaxInboundConnections => 8,
        Setting::ConnectTimeoutMs => 9,
        Setting::ReadTimeoutMs => 10,
        Setting::WriteTimeoutMs => 11,
        Setting::SyncIntervalMs => 12,
        Setting::SyncMaxBlocks => 13,
        Setting::SyncLocatorHashes => 14,
        Setting::Seed => 15,
        Setting::Entropy => 16,
        _ => -1,
    }
}

/// What is neither a number nor a switch agrees.
pub open spec fn same_words(left: NodeRequestView, right: NodeRequestView) -> bool {
    &&& left.config.node_id == right.config.node_id
    &&& left.config.network.wire.network_id == right.config.network.wire.network_id
    &&& left.config.storage == right.config.storage
    &&& left.config.listen_addr == right.config.listen_addr
    &&& left.config.advertise_addr == right.config.advertise_addr
    &&& left.config.peers == right.config.peers
    &&& left.config.miner == right.config.miner
    &&& left.config.mine_once_on_start == right.config.mine_once_on_start
    &&& left.config.network.wire.chain_fingerprint == right.config.network.wire.chain_fingerprint
}

/// The switches agree.
pub open spec fn same_switches(left: NodeRequestView, right: NodeRequestView) -> bool {
    &&& left.mine == right.mine
    &&& left.mine_once == right.mine_once
    &&& left.config.sync.enabled == right.config.sync.enabled
}

/// A setting that takes a number changes that number alone, to the one that its value reads as
/// within its bound; any other value is refused.
pub proof fn lemma_number_setting(
    request: NodeRequestView,
    setting: Setting,
    value: ArgumentView,
    number: int,
)
    requires
        place(setting) >= 0,
    ensures
        ({
            let at: int = place(setting);
            let changed: Option<NodeRequestView> = node::with_setting(request, setting, value);
            &&& reading_laws::reads_number(value.text, most()[at], number) ==> changed is Some
                && row(changed->0) == row(request).update(at, number) && same_words(
                changed->0,
                request,
            ) && same_switches(changed->0, request)
            &&& changed is Some ==> reading_laws::reads_number(
                value.text,
                most()[at],
                row(changed->0)[at],
            )
        }),
{
    let limit: nat = node::number_limit(setting)->0;
    assert(limit == most()[place(setting)]);
    text_laws::lemma_numerals_are_natural(value.text);
    text_laws::lemma_numerals_are_natural(value.text.skip(1));
    if number >= 0 {
        text_laws::lemma_unsigned_reading_is_exact(value.text, limit, number as nat);
    }
    let changed: Option<NodeRequestView> = node::with_setting(request, setting, value);
    if let Some(read) = decimal::spec_parse_unsigned(value.text, limit) {
        text_laws::lemma_unsigned_reading_is_exact(value.text, limit, read);
        assert(read <= limit);
        lemma_number_is_set(request, setting, read);
    }
}

proof fn lemma_number_is_set(request: NodeRequestView, setting: Setting, number: nat)
    requires
        place(setting) >= 0,
        number <= most()[place(setting)],
    ensures
        ({
            let changed: NodeRequestView = node::with_number(request, setting, number);
            &&& row(changed) == row(request).update(place(setting), number as int)
            &&& same_words(changed, request)
            &&& same_switches(changed, request)
        }),
{
    let changed: NodeRequestView = node::with_number(request, setting, number);
    assert(row(changed) =~= row(request).update(place(setting), number as int));
}

/// A setting that takes an address sets it, or adds it to the peers, and changes nothing else. A
/// value that spells no address is refused.
pub proof fn lemma_addr_setting(request: NodeRequestView, value: ArgumentView, addr: PeerAddr)
    ensures
        ({
            let listen: Option<NodeRequestView> = node::with_setting(
                request,
                Setting::Listen,
                value,
            );
            let advertise: Option<NodeRequestView> = node::with_setting(
                request,
                Setting::Advertise,
                value,
            );
            let peer: Option<NodeRequestView> = node::with_setting(request, Setting::Peer, value);
            &&& value.addr is None ==> listen is None && advertise is None && peer is None
            &&& value.addr == Some(addr) ==> {
                &&& listen is Some && advertise is Some && peer is Some
                &&& listen->0.config.listen_addr == addr
                &&& advertise->0.config.advertise_addr == Some(addr)
                &&& peer->0.config.peers == request.config.peers.push(addr)
                &&& row(listen->0) == row(request)
                &&& row(advertise->0) == row(request)
                &&& row(peer->0) == row(request)
                &&& same_switches(listen->0, request)
                &&& same_switches(advertise->0, request)
                &&& same_switches(peer->0, request)
                &&& listen->0.config.advertise_addr == request.config.advertise_addr
                &&& listen->0.config.peers == request.config.peers
                &&& advertise->0.config.listen_addr == request.config.listen_addr
                &&& advertise->0.config.peers == request.config.peers
                &&& peer->0.config.listen_addr == request.config.listen_addr
                &&& peer->0.config.advertise_addr == request.config.advertise_addr
                &&& same_texts(listen->0, request)
                &&& same_texts(advertise->0, request)
                &&& same_texts(peer->0, request)
            }
        }),
{
}

/// The texts agree, and what no setting changes.
pub open spec fn same_texts(left: NodeRequestView, right: NodeRequestView) -> bool {
    &&& left.config.node_id == right.config.node_id
    &&& left.config.network.wire.network_id == right.config.network.wire.network_id
    &&& left.config.storage == right.config.storage
    &&& left.config.miner == right.config.miner
    &&& left.config.mine_once_on_start == right.config.mine_once_on_start
    &&& left.config.network.wire.chain_fingerprint == right.config.network.wire.chain_fingerprint
}

/// The addresses agree.
pub open spec fn same_addrs(left: NodeRequestView, right: NodeRequestView) -> bool {
    &&& left.config.listen_addr == right.config.listen_addr
    &&& left.config.advertise_addr == right.config.advertise_addr
    &&& left.config.peers == right.config.peers
}

/// A setting that takes a text sets it, whatever it is, and changes nothing else.
pub proof fn lemma_text_setting(request: NodeRequestView, value: ArgumentView)
    ensures
        ({
            let name: Option<NodeRequestView> = node::with_setting(request, Setting::NodeId, value);
            let network: Option<NodeRequestView> = node::with_setting(
                request,
                Setting::NetworkId,
                value,
            );
            let dir: Option<NodeRequestView> = node::with_setting(request, Setting::DataDir, value);
            &&& name is Some && network is Some && dir is Some
            &&& name->0.config.node_id == value.text
            &&& network->0.config.network.wire.network_id == value.text
            &&& dir->0.config.storage == Some(value.text)
            &&& row(name->0) == row(request)
            &&& row(network->0) == row(request)
            &&& row(dir->0) == row(request)
            &&& same_switches(name->0, request)
            &&& same_switches(network->0, request)
            &&& same_switches(dir->0, request)
            &&& same_addrs(name->0, request)
            &&& same_addrs(network->0, request)
            &&& same_addrs(dir->0, request)
            &&& name->0.config.network.wire.network_id == request.config.network.wire.network_id
            &&& name->0.config.storage == request.config.storage
            &&& network->0.config.node_id == request.config.node_id
            &&& network->0.config.storage == request.config.storage
            &&& dir->0.config.node_id == request.config.node_id
            &&& dir->0.config.network.wire.network_id == request.config.network.wire.network_id
        }),
{
}

/// A switch turns one thing on or off and changes nothing else. `no_sync` turns catching up off.
pub proof fn lemma_switch_effect(request: NodeRequestView, on: bool)
    ensures
        ({
            let mine: NodeRequestView = node::with_switch(request, Switch::Mine, on);
            let once: NodeRequestView = node::with_switch(request, Switch::MineOnce, on);
            let still: NodeRequestView = node::with_switch(request, Switch::NoSync, on);
            &&& mine.mine == on
            &&& mine.mine_once == request.mine_once
            &&& mine.config.sync.enabled == request.config.sync.enabled
            &&& once.mine_once == on
            &&& once.mine == request.mine
            &&& once.config.sync.enabled == request.config.sync.enabled
            &&& still.config.sync.enabled == !on
            &&& still.mine == request.mine
            &&& still.mine_once == request.mine_once
            &&& row(mine) == row(request)
            &&& row(once) == row(request)
            &&& row(still) == row(request)
            &&& same_words(mine, request)
            &&& same_words(once, request)
            &&& same_words(still, request)
        }),
{
}

/// The word of an option: two dashes, and the name with a dash for every underscore.
pub open spec fn is_option_word(word: Seq<char>, name: Seq<char>) -> bool {
    &&& word.len() == name.len() + 2
    &&& word[0] == '-'
    &&& word[1] == '-'
    &&& forall|i: int|
        0 <= i < name.len() ==> word[i + 2] == if #[trigger] name[i] == '_' {
            '-'
        } else {
            name[i]
        }
}

/// A word names an option exactly where it is the word of it.
pub proof fn lemma_option_word_is_exact(word: Seq<char>, name: Seq<char>)
    requires
        forall|i: int| 0 <= i < name.len() ==> #[trigger] name[i] != '-',
    ensures
        node::option_name(word) == Some(name) <==> is_option_word(word, name),
{
    if is_option_word(word, name) {
        assert forall|i: int| 0 <= i < word.len() implies #[trigger] word[i] != '_' by {
            if i >= 2 {
                let c: char = name[i - 2];
                assert(word[i - 2 + 2] == if c == '_' {
                    '-'
                } else {
                    c
                });
            }
        }
        assert(!word.contains('_'));
        let made: Seq<char> = node::option_name(word)->0;
        assert forall|i: int| 0 <= i < name.len() implies made[i] == name[i] by {
            assert(word.skip(2)[i] == word[i + 2]);
            assert(name[i] != '-');
        }
        assert(made =~= name);
    }
    if node::option_name(word) == Some(name) {
        assert forall|i: int| 0 <= i < name.len() implies word[i + 2] == if #[trigger] name[i]
            == '_' {
            '-'
        } else {
            name[i]
        } by {
            assert(word.skip(2)[i] == word[i + 2]);
            assert(word.contains(word[i + 2]));
        }
    }
}

/// How options are read, word by word: nothing more to read leaves the request; help ends it; the
/// place of a configuration file is passed over; a switch is turned on; a setting takes the word
/// behind it; anything else is told.
pub proof fn lemma_option_step(request: NodeRequestView, args: Seq<ArgumentView>)
    ensures
        ({
            let read: Result<ParsedNodeView, Seq<char>> = node::options_from(request, args);
            let word: Seq<char> = args[0].text;
            let asks: bool = word == "-h"@ || word == "--help"@;
            let switch: Option<Switch> = node::switch_option(word);
            let setting: Option<Setting> = node::setting_option(word);
            &&& args.len() == 0 ==> read == Ok::<ParsedNodeView, Seq<char>>(
                ParsedNodeView::Run(request),
            )
            &&& args.len() > 0 && asks ==> read == Ok::<ParsedNodeView, Seq<char>>(
                ParsedNodeView::Help,
            )
            &&& args.len() > 0 && !asks && word == "--config"@ ==> read == if args.len() == 1 {
                Err::<ParsedNodeView, Seq<char>>(word + " requires a value"@)
            } else {
                node::options_from(request, args.skip(2))
            }
            &&& args.len() > 0 && !asks && word != "--config"@ && switch is Some ==> read
                == node::options_from(node::with_switch(request, switch->0, true), args.skip(1))
            &&& args.len() > 0 && !asks && word != "--config"@ && switch is None && setting is Some
                ==> read == if args.len() == 1 {
                Err::<ParsedNodeView, Seq<char>>(word + " requires a value"@)
            } else if node::with_setting(request, setting->0, args[1]) is None {
                Err::<ParsedNodeView, Seq<char>>(word + " received an invalid value"@)
            } else {
                node::options_from(
                    node::with_setting(request, setting->0, args[1])->0,
                    args.skip(2),
                )
            }
            &&& args.len() > 0 && !asks && word != "--config"@ && switch is None && setting is None
                ==> read == Err::<ParsedNodeView, Seq<char>>("unknown option '"@ + word + "'"@)
        }),
{
}

/// A word is the option of a setting, or of a switch, exactly where it spells its name.
pub proof fn lemma_option_is_exact(word: Seq<char>, setting: Setting, switch: Switch)
    ensures
        node::setting_option(word) == Some(setting) <==> is_option_word(word, name_of(setting)),
        node::switch_option(word) == Some(switch) <==> is_option_word(word, switch_name(switch)),
{
    lemma_names_hold_no_dash(setting, switch);
    lemma_option_word_is_exact(word, name_of(setting));
    lemma_option_word_is_exact(word, switch_name(switch));
    if node::option_name(word) is Some {
        lemma_names_are_exact(node::option_name(word)->0, setting, switch);
    }
    lemma_names_are_exact(name_of(setting), setting, switch);
    lemma_names_are_exact(switch_name(switch), setting, switch);
}

proof fn lemma_names_hold_no_dash(setting: Setting, switch: Switch)
    ensures
        forall|i: int| 0 <= i < name_of(setting).len() ==> #[trigger] name_of(setting)[i] != '-',
        forall|i: int|
            0 <= i < switch_name(switch).len() ==> #[trigger] switch_name(switch)[i] != '-',
{
    reveal_strlit("node_id");
    reveal_strlit("listen");
    reveal_strlit("advertise");
    reveal_strlit("peer");
    reveal_strlit("network_id");
    reveal_strlit("protocol_version");
    reveal_strlit("data_dir");
    reveal_strlit("mine_interval_ms");
    reveal_strlit("run_ms");
    reveal_strlit("steps");
    reveal_strlit("samples");
    reveal_strlit("difficulty");
    reveal_strlit("max_message_bytes");
    reveal_strlit("max_peers");
    reveal_strlit("max_inbound_connections");
    reveal_strlit("connect_timeout_ms");
    reveal_strlit("read_timeout_ms");
    reveal_strlit("write_timeout_ms");
    reveal_strlit("sync_interval_ms");
    reveal_strlit("sync_max_blocks");
    reveal_strlit("sync_locator_hashes");
    reveal_strlit("seed");
    reveal_strlit("entropy");
    reveal_strlit("mine");
    reveal_strlit("mine_once");
    reveal_strlit("no_sync");
}

/// The texts before and behind the first equals sign of a line.
pub open spec fn is_pair(line: Seq<char>, key: Seq<char>, value: Seq<char>) -> bool {
    &&& line == key + seq!['='] + value
    &&& forall|i: int| 0 <= i < key.len() ==> #[trigger] key[i] != '='
}

proof fn lemma_equals(line: Seq<char>)
    ensures
        node::equals_at(line) <= line.len(),
        node::equals_at(line) < line.len() ==> line[node::equals_at(line) as int] == '=',
        forall|i: int| 0 <= i < node::equals_at(line) ==> #[trigger] line[i] != '=',
    decreases line.len(),
{
    if line.len() > 0 && line[0] != '=' {
        let rest: Seq<char> = line.skip(1);
        lemma_equals(rest);
        assert forall|i: int| 0 <= i < node::equals_at(line) implies #[trigger] line[i] != '=' by {
            if i > 0 {
                assert(rest[i - 1] == line[i]);
            }
        }
    }
}

/// A line of a configuration file holds a pair exactly where it is not blank and is cut by its
/// first equals sign; a blank one holds nothing, and any other cannot be read.
pub proof fn lemma_config_line_is_exact(line: Seq<char>, key: Seq<char>, value: Seq<char>)
    ensures
        node::pair_in(line) == Some(None::<(Seq<char>, Seq<char>)>) <==> format_laws::is_white_line(
            line,
        ),
        node::pair_in(line) == Some(Some((key, value))) <==> !format_laws::is_white_line(line)
            && is_pair(line, key, value),
        node::pair_in(line) is None <==> !format_laws::is_white_line(line) && forall|i: int|
            0 <= i < line.len() ==> #[trigger] line[i] != '=',
{
    let at: int = node::equals_at(line) as int;
    format_laws::lemma_blank_is_white(line);
    lemma_equals(line);
    if at < line.len() {
        assert(line =~= line.take(at) + seq!['='] + line.skip(at + 1));
        assert forall|i: int| 0 <= i < at implies #[trigger] line.take(at)[i] != '=' by {
            assert(line[i] != '=');
        }
        if is_pair(line, key, value) {
            let size: int = key.len() as int;
            assert(line[size] == '=');
            if size < at {
                assert(line[size] != '=');
            } else if at < size {
                assert(key[at] == line[at]);
            }
            assert(line.take(at) =~= key);
            assert(line.skip(at + 1) =~= value);
        }
    } else if is_pair(line, key, value) {
        assert(line[key.len() as int] == '=');
    }
}

/// A configuration file is read line by line: a pair is added, a blank line adds nothing, and the
/// first line that cannot be read is told by its number, counted from one.
pub proof fn lemma_config_lines_in_order(lines: Seq<Seq<char>>, line: Seq<char>)
    ensures
        node::pairs_in(Seq::empty()) == Ok::<Seq<(Seq<char>, Seq<char>)>, Seq<char>>(Seq::empty()),
        ({
            let before: Result<Seq<(Seq<char>, Seq<char>)>, Seq<char>> = node::pairs_in(lines);
            let after: Result<Seq<(Seq<char>, Seq<char>)>, Seq<char>> = node::pairs_in(
                lines.push(line),
            );
            match (before, node::pair_in(message::trimmed(line))) {
                (Err(message), _) => after == before,
                (Ok(pairs), Some(Some(pair))) => after == Ok::<
                    Seq<(Seq<char>, Seq<char>)>,
                    Seq<char>,
                >(pairs.push(pair)),
                (Ok(pairs), Some(None)) => after == before,
                (Ok(pairs), None) => after matches Err(message) && message == "config line "@
                    + decimal::int_text(lines.len() as int + 1) + " must be key=value"@,
            }
        }),
{
    assert(lines.push(line).drop_last() =~= lines);
}

/// What one setting of a configuration file does: a switch takes `true` or `false`, a setting its
/// value; a value that cannot be used and a key that names nothing are told.
pub proof fn lemma_entry_effect(request: NodeRequestView, entry: EntryView)
    ensures
        ({
            let after: Result<NodeRequestView, Seq<char>> = node::after_entry(request, entry);
            let switch: Option<Switch> = node::switch_named(entry.key);
            let setting: Option<Setting> = node::setting_named(entry.key);
            let bad: Result<NodeRequestView, Seq<char>> = Err(
                entry.key + " received an invalid value"@,
            );
            &&& switch is Some && entry.value.text == "true"@ ==> after == Ok::<
                NodeRequestView,
                Seq<char>,
            >(node::with_switch(request, switch->0, true))
            &&& switch is Some && entry.value.text == "false"@ ==> after == Ok::<
                NodeRequestView,
                Seq<char>,
            >(node::with_switch(request, switch->0, false))
            &&& switch is Some && entry.value.text != "true"@ && entry.value.text != "false"@
                ==> after == bad
            &&& switch is None && setting is Some ==> after == match node::with_setting(
                request,
                setting->0,
                entry.value,
            ) {
                Some(changed) => Ok::<NodeRequestView, Seq<char>>(changed),
                None => bad,
            }
            &&& switch is None && setting is None ==> after == Err::<NodeRequestView, Seq<char>>(
                "unknown config key '"@ + entry.key + "'"@,
            )
        }),
{
    reveal_strlit("true");
    reveal_strlit("false");
    assert("true"@.len() != "false"@.len());
}

/// The settings of a configuration file are taken one after the other, up to the first complaint.
pub proof fn lemma_entries_in_order(
    request: NodeRequestView,
    entries: Seq<EntryView>,
    entry: EntryView,
)
    ensures
        node::after_entries(request, Seq::empty()) == Ok::<NodeRequestView, Seq<char>>(request),
        node::settled(request, Seq::empty()) == request,
        match node::after_entries(request, entries) {
            Ok(before) => {
                &&& node::settled(request, entries) == before
                &&& node::after_entries(request, entries.push(entry)) == node::after_entry(
                    before,
                    entry,
                )
                &&& node::settled(request, entries.push(entry)) == match node::after_entry(
                    before,
                    entry,
                ) {
                    Ok(after) => after,
                    Err(message) => before,
                }
            },
            Err(message) => {
                &&& node::after_entries(request, entries.push(entry)) == Err::<
                    NodeRequestView,
                    Seq<char>,
                >(message)
                &&& node::settled(request, entries.push(entry)) == node::settled(request, entries)
            },
        },
{
    assert(entries.push(entry).drop_last() =~= entries);
    if entries.len() == 0 {
        assert(entries =~= Seq::<EntryView>::empty());
    }
}

/// What a node is asked to do unless something is set.
pub open spec fn is_default_request(request: NodeRequestView) -> bool {
    &&& request.config == config::default_node(
        "chesscoin-node"@,
        PeerAddr::V4 { ip: 0x7f00_0001, port: 9333 },
    )
    &&& !request.mine
    &&& !request.mine_once
    &&& row(request) == seq![
        6int,
        5000int,
        0int,
        16int,
        6int,
        8int,
        1_048_576int,
        64int,
        64int,
        500int,
        5000int,
        500int,
        5000int,
        128int,
        32int,
        42int,
        2026int,
    ]
}

/// A request is what nothing set leaves, changed by the configuration file and then by the options.
/// It is refused where a block would have more samples than steps. It has a miner exactly where it
/// mines continuously, with the interval that was set.
pub proof fn lemma_request_is_exact(entries: Seq<EntryView>, args: Seq<ArgumentView>)
    ensures
        is_default_request(node::default_request()),
        ({
            let asked: Result<ParsedNodeView, Seq<char>> = node::spec_node_request(entries, args);
            match node::after_entries(node::default_request(), entries) {
                Err(message) => asked == Err::<ParsedNodeView, Seq<char>>(message),
                Ok(request) => match node::options_from(request, args) {
                    Err(message) => asked == Err::<ParsedNodeView, Seq<char>>(message),
                    Ok(ParsedNodeView::Help) => asked == Ok::<ParsedNodeView, Seq<char>>(
                        ParsedNodeView::Help,
                    ),
                    Ok(ParsedNodeView::Run(read)) => if row(read)[4] > row(read)[3] {
                        asked == Err::<ParsedNodeView, Seq<char>>(
                            "--samples must be less than or equal to --steps"@,
                        )
                    } else {
                        asked matches Ok(ParsedNodeView::Run(made)) && {
                            &&& row(made) == row(read)
                            &&& same_switches(made, read)
                            &&& same_addrs(made, read)
                            &&& made.config.node_id == read.config.node_id
                            &&& made.config.storage == read.config.storage
                            &&& made.config.network == read.config.network
                            &&& made.config.mine_once_on_start == read.config.mine_once_on_start
                            &&& made.config.miner is Some <==> read.mine
                            &&& made.config.miner matches Some(miner) ==> miner.interval_ms
                                == read.mine_interval_ms
                        }
                    },
                },
            }
        }),
{
    setup_laws::lemma_defaults_are_told(
        "chesscoin-node"@,
        PeerAddr::V4 { ip: 0x7f00_0001, port: 9333 },
    );
    assert(row(node::default_request()) =~= seq![
        6int,
        5000int,
        0int,
        16int,
        6int,
        8int,
        1_048_576int,
        64int,
        64int,
        500int,
        5000int,
        500int,
        5000int,
        128int,
        32int,
        42int,
        2026int,
    ]);
}

/// Where a configuration file is looked for: at the word behind the last option that names it.
/// Words that are values of other settings do not count.
pub proof fn lemma_config_path_step(args: Seq<ArgumentView>, found: Option<Seq<char>>)
    ensures
        ({
            let path: Option<Seq<char>> = node::spec_config_path(args, found);
            let word: Seq<char> = args[0].text;
            &&& args.len() == 0 ==> path == found
            &&& args.len() == 1 ==> path == found
            &&& args.len() >= 2 && word == "--config"@ ==> path == node::spec_config_path(
                args.skip(2),
                Some(args[1].text),
            )
            &&& args.len() >= 2 && word != "--config"@ ==> path == node::spec_config_path(
                args.skip(
                    if node::setting_option(word) is Some {
                        2
                    } else {
                        1
                    },
                ),
                found,
            )
        }),
{
    if args.len() == 1 {
        assert(args.skip(1).len() == 0);
    }
}

} // verus!
