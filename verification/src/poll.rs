//! The order in which a tick refreshes the dashboard, and what a failure
//! does to it.
//!
//! A tick goes through its stages in a fixed order. Every stage has to
//! succeed before the next one begins: a failure at any stage ends the tick,
//! and nothing is shown of a tick that did not go through all of them.

use vstd::prelude::*;
use crate::error::Error;

verus! {

/// Microseconds from the start of one tick to the start of the next.
pub const TICK_MICROS: u64 = 1_000_000;

/// How many disks, interfaces and services a tick refreshes.
#[derive(Clone, Copy, Debug, PartialEq, Eq, Structural)]
pub struct Plan {
    pub disks: usize,
    pub interfaces: usize,
    pub services: usize,
}

/// One stage of a tick.
#[derive(Clone, Copy, Debug, PartialEq, Eq, Structural)]
pub enum Stage {
    /// Memory, thermal sensors and processor, read in one command.
    Sysctls,
    /// The health of the disk of this index.
    Disk(usize),
    /// The link of the interface of this index.
    Link(usize),
    /// The table of interfaces.
    Traffic,
    /// The reports of the gateway monitors.
    Gateways,
    /// The process of the service of this index.
    Service(usize),
    /// Everything is refreshed and shown.
    Render,
    /// The rest of the tick is waited out; then the next tick begins.
    Sleep,
}

/// What follows a stage.
#[derive(Debug)]
pub enum Step {
    /// The tick goes on with this stage.
    Run(Stage),
    /// The tick is over, and with it the process.
    Abort(Error),
}

/// The first of the stages from `stage` on that exists under `plan`: a stage
/// for a disk, an interface or a service whose index is beyond their number
/// gives way to the stage after the last of them.
pub open spec fn settled(stage: Stage, plan: Plan) -> Stage {
    match stage {
        Stage::Disk(i) => if i < plan.disks {
            stage
        } else {
            settled_link(0, plan)
        },
        Stage::Link(i) => settled_link(i, plan),
        Stage::Service(i) => if i < plan.services {
            stage
        } else {
            Stage::Render
        },
        _ => stage,
    }
}

/// The stage for the link of interface `i`, or the table of interfaces where
/// there is no such interface.
pub open spec fn settled_link(i: usize, plan: Plan) -> Stage {
    if i < plan.interfaces {
        Stage::Link(i)
    } else {
        Stage::Traffic
    }
}

/// The stage that follows `stage` where `stage` succeeded.
pub open spec fn successor(stage: Stage, plan: Plan) -> Stage {
    match stage {
        Stage::Sysctls => settled(Stage::Disk(0), plan),
        Stage::Disk(i) => if i < usize::MAX {
            settled(Stage::Disk((i + 1) as usize), plan)
        } else {
            settled_link(0, plan)
        },
        Stage::Link(i) => if i < usize::MAX {
            settled_link((i + 1) as usize, plan)
        } else {
            Stage::Traffic
        },
        Stage::Traffic => Stage::Gateways,
        Stage::Gateways => settled(Stage::Service(0), plan),
        Stage::Service(i) => if i < usize::MAX {
            settled(Stage::Service((i + 1) as usize), plan)
        } else {
            Stage::Render
        },
        Stage::Render => Stage::Sleep,
        Stage::Sleep => Stage::Sysctls,
    }
}

/// The place of a stage in its tick, counted from zero.
pub open spec fn place(stage: Stage, plan: Plan) -> int {
    match stage {
        Stage::Sysctls => 0,
        Stage::Disk(i) => 1 + i,
        Stage::Link(i) => 1 + plan.disks + i,
        Stage::Traffic => 1 + plan.disks + plan.interfaces,
        Stage::Gateways => 2 + plan.disks + plan.interfaces,
        Stage::Service(i) => 3 + plan.disks + plan.interfaces + i,
        Stage::Render => 3 + plan.disks + plan.interfaces + plan.services,
        Stage::Sleep => 4 + plan.disks + plan.interfaces + plan.services,
    }
}

/// Whether a stage exists under a plan.
pub open spec fn exists_under(stage: Stage, plan: Plan) -> bool {
    match stage {
        Stage::Disk(i) => i < plan.disks,
        Stage::Link(i) => i < plan.interfaces,
        Stage::Service(i) => i < plan.services,
        _ => true,
    }
}

/// The stage with which every tick begins.
pub fn first() -> (stage: Stage)
    ensures
        stage == Stage::Sysctls,
{
    Stage::Sysctls
}

fn settle_link(i: usize, plan: &Plan) -> (stage: Stage)
    ensures
        stage == settled_link(i, *plan),
{
    if i < plan.interfaces {
        Stage::Link(i)
    } else {
        Stage::Traffic
    }
}

fn settle_disk(i: usize, plan: &Plan) -> (stage: Stage)
    ensures
        stage == settled(Stage::Disk(i), *plan),
{
    if i < plan.disks {
        Stage::Disk(i)
    } else {
        settle_link(0, plan)
    }
}

fn settle_service(i: usize, plan: &Plan) -> (stage: Stage)
    ensures
        stage == settled(Stage::Service(i), *plan),
{
    if i < plan.services {
        Stage::Service(i)
    } else {
        Stage::Render
    }
}

/// What follows `stage`, which ended with `outcome`: after a success the
/// next stage of the tick, after a failure the end.
pub fn next(stage: Stage, plan: &Plan, outcome: Result<(), Error>) -> (step: Step)
    ensures
        match outcome {
            Ok(_) => step == Step::Run(successor(stage, *plan)),
            Err(error) => step == Step::Abort(error),
        },
{
    match outcome {
        Err(error) => Step::Abort(error),
        Ok(_) => Step::Run(
            match stage {
                Stage::Sysctls => settle_disk(0, plan),
                Stage::Disk(i) => if i < usize::MAX {
                    settle_disk(i + 1, plan)
                } else {
                    settle_link(0, plan)
                },
                Stage::Link(i) => if i < usize::MAX {
                    settle_link(i + 1, plan)
                } else {
                    Stage::Traffic
                },
                Stage::Traffic => Stage::Gateways,
                Stage::Gateways => settle_service(0, plan),
                Stage::Service(i) => if i < usize::MAX {
                    settle_service(i + 1, plan)
                } else {
                    Stage::Render
                },
                Stage::Render => Stage::Sleep,
                Stage::Sleep => Stage::Sysctls,
            },
        ),
    }
}

/// The stages of a tick come in one order and none is left out: what follows
/// a stage exists and stands at the next place, until the tick ends with
/// `Sleep` and the next tick begins at the first place.
pub proof fn lemma_stages_in_order(stage: Stage, plan: Plan)
    requires
        exists_under(stage, plan),
    ensures
        exists_under(successor(stage, plan), plan),
        stage != Stage::Sleep ==> place(successor(stage, plan), plan) == place(stage, plan) + 1,
        stage == Stage::Sleep ==> place(successor(stage, plan), plan) == 0,
{
}

/// The time to wait at the end of a tick that began at `started` when it is
/// `now`, both in microseconds: what is left of the tick, and nothing where
/// the tick has run over.
pub open spec fn rest_of_tick(started: u64, now: u64) -> u64 {
    if now >= started && now - started < TICK_MICROS {
        (TICK_MICROS - (now - started)) as u64
    } else if now < started {
        if started - now > u64::MAX - TICK_MICROS {
            u64::MAX
        } else {
            (started - now + TICK_MICROS) as u64
        }
    } else {
        0
    }
}

/// The microseconds to sleep at the end of a tick, so that the next tick
/// begins a tick's length after this one began.
pub fn sleep_for(started: u64, now: u64) -> (micros: u64)
    ensures
        micros == rest_of_tick(started, now),
        now >= started + TICK_MICROS ==> micros == 0,
        started <= now < started + TICK_MICROS ==> micros == started + TICK_MICROS - now,
{
    if now >= started {
        let spent = now - started;
        if spent < TICK_MICROS {
            TICK_MICROS - spent
        } else {
            0
        }
    } else {
        (started - now).saturating_add(TICK_MICROS)
    }
}

/// The whole seconds from the start of the previous tick to the start of
/// this one, both in microseconds. A tick that begins before the previous
/// one did is an error.
pub fn seconds_between(previous: u64, started: u64) -> (seconds: Result<u64, Error>)
    ensures
        started >= previous ==> seconds == Ok::<u64, Error>(
            ((started - previous) / 1_000_000) as u64,
        ),
        started < previous ==> seconds == Err::<u64, Error>(Error::ClockWentBack),
{
    if started < previous {
        Err(Error::ClockWentBack)
    } else {
        Ok((started - previous) / 1_000_000)
    }
}

} // verus!
