use vstd::prelude::*;

use crate::matching::Order;

verus! {

/// Where the round controller stands in a game's cycle.
#[derive(Clone, Copy, Debug, PartialEq, Eq, Structural)]
pub enum ControllerState {
    /// The inter-round pause before the numbered round begins.
    AwaitingRound { round: usize },
    /// The numbered round is being played.
    RoundRunning { round: usize },
    /// The last round ended; the game is to be wound up.
    GameEnding,
}

/// What the controller's caller performs next: each action stands for the
/// sleep, the game-active flag write and the engine call of one phase.
#[derive(Clone, Copy, Debug, PartialEq, Eq, Structural)]
pub enum ControllerAction {
    /// Wait the inter-round pause, raise the game-active flag, and start
    /// the numbered round.
    StartRound { round: usize },
    /// Wait the round's duration, clear the game-active flag, and end the
    /// round.
    EndRound,
    /// Broadcast the game's end, drop every registration, and wait the
    /// pause before a new game may begin.
    EndGame,
}

/// A controller state never names a round the game does not have.
pub open spec fn controller_state_wf(state: ControllerState, rounds_per_game: usize) -> bool {
    match state {
        ControllerState::AwaitingRound { round } => round < rounds_per_game,
        ControllerState::RoundRunning { round } => round < rounds_per_game,
        ControllerState::GameEnding => true,
    }
}

/// The round controller's schedule, one decision at a time: each round is
/// started then ended in order; after the last round the game is wound up
/// and the cycle restarts at round zero.
pub fn round_controller_step(state: ControllerState, rounds_per_game: usize) -> (r: (
    ControllerState,
    ControllerAction,
))
    requires
        rounds_per_game >= 1,
        controller_state_wf(state, rounds_per_game),
    ensures
        controller_state_wf(r.0, rounds_per_game),
        match state {
            ControllerState::AwaitingRound { round } => r == (
                ControllerState::RoundRunning { round },
                ControllerAction::StartRound { round },
            ),
            ControllerState::RoundRunning { round } => {
                if round + 1 < rounds_per_game {
                    r == (
                        ControllerState::AwaitingRound { round: (round + 1) as usize },
                        ControllerAction::EndRound,
                    )
                } else {
                    r == (ControllerState::GameEnding, ControllerAction::EndRound)
                }
            },
            ControllerState::GameEnding => r == (
                ControllerState::AwaitingRound { round: 0 },
                ControllerAction::EndGame,
            ),
        },
{
    match state {
        ControllerState::AwaitingRound { round } => (
            ControllerState::RoundRunning { round },
            ControllerAction::StartRound { round },
        ),
        ControllerState::RoundRunning { round } => {
            if round + 1 < rounds_per_game {
                (ControllerState::AwaitingRound { round: round + 1 }, ControllerAction::EndRound)
            } else {
                (ControllerState::GameEnding, ControllerAction::EndRound)
            }
        },
        ControllerState::GameEnding => (
            ControllerState::AwaitingRound { round: 0 },
            ControllerAction::EndGame,
        ),
    }
}

/// What wakes the hotpath consumer.
#[derive(Debug)]
pub enum HotpathEvent {
    /// An order arrived on the queue, with its reply pending.
    Dequeued(Order),
    /// Five seconds passed with nothing to do.
    IdleTick,
    /// The process is shutting down.
    Shutdown,
}

/// What the hotpath consumer does in answer.
#[derive(Debug)]
pub enum HotpathAction {
    /// Run the order through the engine and send the reply back.
    Process(Order),
    /// Broadcast a book snapshot with no trade attached.
    Broadcast,
    /// Leave the loop.
    Exit,
}

/// The hotpath consumer's whole decision: orders are processed in arrival
/// order, an idle tick broadcasts the books, and shutdown exits.
pub fn hotpath_step(event: HotpathEvent) -> (a: HotpathAction)
    ensures
        match event {
            HotpathEvent::Dequeued(o) => a matches HotpathAction::Process(p) && p == o,
            HotpathEvent::IdleTick => a is Broadcast,
            HotpathEvent::Shutdown => a is Exit,
        },
{
    match event {
        HotpathEvent::Dequeued(o) => HotpathAction::Process(o),
        HotpathEvent::IdleTick => HotpathAction::Broadcast,
        HotpathEvent::Shutdown => HotpathAction::Exit,
    }
}

} // verus!
