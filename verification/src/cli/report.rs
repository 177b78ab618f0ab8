//! What a node prints about itself.

use vstd::prelude::*;

use crate::cli::node::{NodeRequest, NodeRequestView};
use crate::decimal;
use crate::domain::digest;
use crate::node::config::NetworkView;
use crate::node::{NetworkConfig, NodeSnapshot};
use crate::text;

verus! {

/// The line about the network that a node is part of.
pub open spec fn network_text(network: NetworkView) -> Seq<char> {
    "network              id="@ + network.wire.network_id + " protocol="@ + decimal::int_text(
        network.wire.protocol_version as int,
    ) + " chain="@ + digest::hex_text(network.wire.chain_fingerprint@) + " max_message_bytes="@
        + decimal::int_text(network.max_message_bytes as int) + " max_peers="@ + decimal::int_text(
        network.max_peers as int,
    ) + " max_inbound_connections="@ + decimal::int_text(network.max_inbound_connections as int)
}

/// The line about the network that a node is part of.
pub fn network_line(network: &NetworkConfig) -> (line: String)
    ensures
        line@ == network_text(network@),
{
    let mut line: String = "network              id=".to_string();
    line.append(network.wire.network_id.as_str());
    line.append(" protocol=");
    decimal::push_u64(&mut line, network.wire.protocol_version as u64);
    line.append(" chain=");
    let chain: String = network.wire.chain_fingerprint.to_hex();
    line.append(chain.as_str());
    line.append(" max_message_bytes=");
    decimal::push_u64(&mut line, network.max_message_bytes as u64);
    line.append(" max_peers=");
    decimal::push_u64(&mut line, network.max_peers as u64);
    line.append(" max_inbound_connections=");
    decimal::push_u64(&mut line, network.max_inbound_connections as u64);
    line
}

/// The lines about mining that was asked for, and about a node that runs without end.
pub open spec fn mode_texts(request: NodeRequestView) -> Seq<Seq<char>> {
    let none: Seq<Seq<char>> = Seq::empty();
    (if request.mine {
        seq!["miner                continuous"@]
    } else {
        none
    }) + (if request.mine_once {
        seq!["mining               one block requested"@]
    } else {
        none
    }) + (if request.run_ms == 0 {
        seq!["mode                 running until process is stopped"@]
    } else {
        none
    })
}

/// The lines that a node prints when it starts.
pub open spec fn startup_texts(
    snapshot: NodeSnapshot,
    network: NetworkView,
    request: NodeRequestView,
    listening: Seq<char>,
    advertising: Seq<char>,
    peers: Seq<Seq<char>>,
) -> Seq<Seq<char>> {
    seq![
        "ChessCoin node v0.1"@,
        "-------------------"@,
        "node id              "@ + snapshot.node_id@,
        "listening            "@ + listening,
        "advertising          "@ + advertising,
        network_text(network),
        "peers                ["@ + text::join(peers, ", "@) + "]"@,
        "height               "@ + decimal::int_text(snapshot.height as int),
    ] + mode_texts(request)
}

/// The lines that a node prints when it starts. The addresses are given as texts.
pub fn startup_lines(
    snapshot: &NodeSnapshot,
    network: &NetworkConfig,
    request: &NodeRequest,
    listening: &str,
    advertising: &str,
    peers: &[String],
) -> (lines: Vec<String>)
    ensures
        text::string_views(lines@) == startup_texts(
            *snapshot,
            network@,
            request@,
            listening@,
            advertising@,
            text::string_views(peers@),
        ),
{
    let mut lines: Vec<String> = Vec::new();
    lines.push("ChessCoin node v0.1".to_string());
    lines.push("-------------------".to_string());
    lines.push(labelled("node id              ", snapshot.node_id.as_str()));
    lines.push(labelled("listening            ", listening));
    lines.push(labelled("advertising          ", advertising));
    lines.push(network_line(network));
    let list: String = text::join_strings(peers, ", ");
    lines.push(text::concat3("peers                [", list.as_str(), "]"));
    lines.push(counted("height               ", snapshot.height));
    if request.mine {
        lines.push("miner                continuous".to_string());
    }
    if request.mine_once {
        lines.push("mining               one block requested".to_string());
    }
    if request.run_ms == 0 {
        lines.push("mode                 running until process is stopped".to_string());
    }
    assert(text::string_views(lines@) =~= startup_texts(
        *snapshot,
        network@,
        request@,
        listening@,
        advertising@,
        text::string_views(peers@),
    ));
    lines
}

/// The line that a running node prints from time to time.
pub open spec fn status_text(snapshot: NodeSnapshot) -> Seq<char> {
    "status               height="@ + decimal::int_text(snapshot.height as int) + " accepted="@
        + decimal::int_text(snapshot.accepted_blocks as int) + " rejected="@ + decimal::int_text(
        snapshot.rejected_blocks as int,
    ) + " head="@ + digest::hex_text(snapshot.head@)
}

/// The line that a running node prints from time to time.
pub fn status_line(snapshot: &NodeSnapshot) -> (line: String)
    ensures
        line@ == status_text(*snapshot),
{
    let mut line: String = "status               height=".to_string();
    decimal::push_u64(&mut line, snapshot.height);
    line.append(" accepted=");
    decimal::push_u64(&mut line, snapshot.accepted_blocks as u64);
    line.append(" rejected=");
    decimal::push_u64(&mut line, snapshot.rejected_blocks as u64);
    line.append(" head=");
    let head: String = snapshot.head.to_hex();
    line.append(head.as_str());
    line
}

/// The lines that a node prints when it stops.
pub open spec fn final_texts(snapshot: NodeSnapshot) -> Seq<Seq<char>> {
    seq![
        "final height         "@ + decimal::int_text(snapshot.height as int),
        "mined blocks         "@ + decimal::int_text(snapshot.mined_blocks as int),
        "known blocks         "@ + decimal::int_text(snapshot.known_blocks as int),
        "accepted blocks      "@ + decimal::int_text(snapshot.accepted_blocks as int),
        "rejected blocks      "@ + decimal::int_text(snapshot.rejected_blocks as int),
        "synced blocks        "@ + decimal::int_text(snapshot.synced_blocks as int),
        "reorgs               "@ + decimal::int_text(snapshot.reorgs as int),
        "peer rejections      "@ + decimal::int_text(snapshot.peer_rejections as int),
        "failed responses     "@ + decimal::int_text(snapshot.failed_responses as int),
        "known peers          "@ + decimal::int_text(snapshot.known_peers@.len() as int),
        "head                 "@ + digest::hex_text(snapshot.head@),
    ]
}

fn labelled(label: &str, value: &str) -> (line: String)
    ensures
        line@ == label@ + value@,
{
    let mut line: String = label.to_string();
    line.append(value);
    line
}

fn counted(label: &str, value: u64) -> (line: String)
    ensures
        line@ == label@ + decimal::int_text(value as int),
{
    let mut line: String = label.to_string();
    decimal::push_u64(&mut line, value);
    line
}

/// The lines that a node prints when it stops.
pub fn final_lines(snapshot: &NodeSnapshot) -> (lines: Vec<String>)
    ensures
        text::string_views(lines@) == final_texts(*snapshot),
{
    let mut lines: Vec<String> = Vec::new();
    lines.push(counted("final height         ", snapshot.height));
    lines.push(counted("mined blocks         ", snapshot.mined_blocks as u64));
    lines.push(counted("known blocks         ", snapshot.known_blocks as u64));
    lines.push(counted("accepted blocks      ", snapshot.accepted_blocks as u64));
    lines.push(counted("rejected blocks      ", snapshot.rejected_blocks as u64));
    lines.push(counted("synced blocks        ", snapshot.synced_blocks as u64));
    lines.push(counted("reorgs               ", snapshot.reorgs as u64));
    lines.push(counted("peer rejections      ", snapshot.peer_rejections as u64));
    lines.push(counted("failed responses     ", snapshot.failed_responses as u64));
    lines.push(counted("known peers          ", snapshot.known_peers.len() as u64));
    let head: String = snapshot.head.to_hex();
    lines.push(labelled("head                 ", head.as_str()));
    assert(text::string_views(lines@) =~= final_texts(*snapshot));
    lines
}

} // verus!
