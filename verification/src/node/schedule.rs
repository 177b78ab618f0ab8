//! When a node mines and catches up, and what commands ask of it.

use vstd::prelude::*;

use crate::bits;
use crate::node::config::{MinerConfig, NodeConfig, PeerAddr, SyncConfig};

verus! {

/// What a node can be told to do.
#[derive(Clone, Copy, Debug, PartialEq, Eq, Structural)]
pub enum NodeCommand {
    MineOnce { training_seed: u64, sampling_entropy: u64 },
    AddPeer(PeerAddr),
    StartMining(MinerConfig),
    StopMining,
    SyncOnce,
    Stop,
}

/// What a command leaves to be done.
#[derive(Clone, Copy, Debug, PartialEq, Eq, Structural)]
pub enum LoopAction {
    Nothing,
    Mine { training_seed: u64, sampling_entropy: u64 },
    AddPeer(PeerAddr),
    Sync,
}

/// What a node does next, and when. Times are in milliseconds since the node started.
#[derive(Clone, Copy, Debug, PartialEq, Eq, Structural)]
pub struct Schedule {
    pub miner: Option<MinerConfig>,
    pub sync: SyncConfig,
    pub next_mine_at: u64,
    pub next_sync_at: u64,
    pub stopped: bool,
}

/// The moment `interval` after `now`; the last one that can be told where that is too far.
pub open spec fn spec_later(now: u64, interval: u64) -> u64 {
    if now + interval <= u64::MAX {
        (now + interval) as u64
    } else {
        u64::MAX
    }
}

fn later(now: u64, interval: u64) -> (moment: u64)
    ensures
        moment == spec_later(now, interval),
{
    if interval <= u64::MAX - now {
        now + interval
    } else {
        u64::MAX
    }
}

/// The schedule after a command.
pub open spec fn after_command(schedule: Schedule, command: NodeCommand, now: u64) -> Schedule {
    match command {
        NodeCommand::StartMining(miner) => Schedule {
            miner: Some(miner),
            next_mine_at: now,
            ..schedule
        },
        NodeCommand::StopMining => Schedule { miner: None, ..schedule },
        NodeCommand::Stop => Schedule { stopped: true, ..schedule },
        _ => schedule,
    }
}

/// What a command leaves to be done.
pub open spec fn action_of(command: NodeCommand) -> LoopAction {
    match command {
        NodeCommand::MineOnce { training_seed, sampling_entropy } => LoopAction::Mine {
            training_seed,
            sampling_entropy,
        },
        NodeCommand::AddPeer(peer) => LoopAction::AddPeer(peer),
        NodeCommand::SyncOnce => LoopAction::Sync,
        _ => LoopAction::Nothing,
    }
}

/// The schedule after mining: the next time comes one interval later.
pub open spec fn after_mining(schedule: Schedule, now: u64) -> Schedule {
    match schedule.miner {
        Some(miner) => Schedule { next_mine_at: spec_later(now, miner.interval_ms), ..schedule },
        None => schedule,
    }
}

/// It is time to mine.
pub open spec fn is_mining_due(schedule: Schedule, now: u64) -> bool {
    schedule.miner is Some && now >= schedule.next_mine_at
}

impl Schedule {
    /// A schedule that mines and catches up at once.
    pub fn new(miner: Option<MinerConfig>, sync: SyncConfig, now: u64) -> (schedule: Self)
        ensures
            schedule == (Schedule {
                miner,
                sync,
                next_mine_at: now,
                next_sync_at: now,
                stopped: false,
            }),
    {
        Schedule { miner, sync, next_mine_at: now, next_sync_at: now, stopped: false }
    }

    /// Takes a command.
    pub fn command(&mut self, command: NodeCommand, now: u64) -> (action: LoopAction)
        ensures
            *final(self) == after_command(*old(self), command, now),
            action == action_of(command),
    {
        match command {
            NodeCommand::MineOnce { training_seed, sampling_entropy } => LoopAction::Mine {
                training_seed,
                sampling_entropy,
            },
            NodeCommand::AddPeer(peer) => LoopAction::AddPeer(peer),
            NodeCommand::StartMining(miner) => {
                self.miner = Some(miner);
                self.next_mine_at = now;
                LoopAction::Nothing
            },
            NodeCommand::StopMining => {
                self.miner = None;
                LoopAction::Nothing
            },
            NodeCommand::SyncOnce => LoopAction::Sync,
            NodeCommand::Stop => {
                self.stopped = true;
                LoopAction::Nothing
            },
        }
    }

    /// Whether it is time to mine.
    pub fn mine_due(&self, now: u64) -> (due: bool)
        ensures
            due == is_mining_due(*self, now),
    {
        self.miner.is_some() && now >= self.next_mine_at
    }

    /// Sets the next time to mine, after mining.
    pub fn mined(&mut self, now: u64)
        ensures
            *final(self) == after_mining(*old(self), now),
    {
        if let Some(miner) = self.miner {
            self.next_mine_at = later(now, miner.interval_ms);
        }
    }

    /// Whether it is time to catch up.
    pub fn sync_due(&self, now: u64) -> (due: bool)
        ensures
            due == (self.sync.enabled && now >= self.next_sync_at),
    {
        self.sync.enabled && now >= self.next_sync_at
    }

    /// Sets the next time to catch up, after catching up.
    pub fn synced(&mut self, now: u64)
        ensures
            *final(self) == (Schedule {
                next_sync_at: spec_later(now, old(self).sync.interval_ms),
                ..*old(self)
            }),
    {
        self.next_sync_at = later(now, self.sync.interval_ms);
    }
}

/// The sampling entropy that belongs to a seed taken from the clock.
pub fn entropy_from(seed: u64) -> (entropy: u64)
    ensures
        entropy == bits::spec_rotate_left(seed, 7),
{
    bits::rotate_left(seed, 7)
}

/// The command that a node gives itself on start: to mine once, where it is configured so. The two
/// seeds are taken from the clock one after the other.
pub fn startup_command(settings: &NodeConfig, seed: u64, second_seed: u64) -> (command: Option<
    NodeCommand,
>)
    ensures
        command == (if settings.mine_once_on_start {
            Some(
                NodeCommand::MineOnce {
                    training_seed: seed,
                    sampling_entropy: bits::spec_rotate_left(second_seed, 7),
                },
            )
        } else {
            None
        }),
{
    if settings.mine_once_on_start {
        Some(
            NodeCommand::MineOnce {
                training_seed: seed,
                sampling_entropy: entropy_from(second_seed),
            },
        )
    } else {
        None
    }
}

/// A node that has just mined is not due to mine again before its interval has passed, unless
/// mining is started anew.
pub proof fn lemma_mining_waits(schedule: Schedule, now: u64, moment: u64)
    requires
        schedule.miner is Some,
        now <= moment < now + schedule.miner->0.interval_ms,
        moment < u64::MAX,
    ensures
        !is_mining_due(after_mining(schedule, now), moment),
        is_mining_due(
            after_command(
                after_mining(schedule, now),
                NodeCommand::StartMining(schedule.miner->0),
                moment,
            ),
            moment,
        ),
{
}

} // verus!
