//! The decisions of an automated player's client loop: what to do with each
//! server message, and when to think and send keys.

use vstd::prelude::*;

verus! {

/// Where the client's game stands.
#[derive(Clone, Copy, Debug, PartialEq, Eq, Structural)]
pub enum ClientPhase {
    /// No game yet.
    Waiting,
    /// The game ended.
    Over,
    /// A game is running.
    Playing,
}

/// A message from the server, as far as the loop's decisions need it.
#[derive(Clone, Copy, Debug, PartialEq, Eq, Structural)]
pub enum ServerEvent {
    /// A board snapshot; `own` when it is the client's own board.
    Display { own: bool },
    GameOver,
    Start,
    /// A match request with its id.
    Request(i32),
    Terminate,
    /// Anything else.
    Other,
}

/// What to do with a server message.
#[derive(Clone, Copy, Debug, PartialEq, Eq, Structural)]
pub enum ReceiveAction {
    Nothing,
    /// Keep the snapshot as the latest one of the own board.
    StoreDisplay,
    /// Accept the match request with this id.
    Accept(i32),
    /// Leave the loop.
    Quit,
    /// Report a message the loop does not handle.
    Skip,
}

/// What to do once the pending messages are read.
#[derive(Clone, Copy, Debug, PartialEq, Eq, Structural)]
pub enum Step {
    /// Keep the latest snapshot and wait.
    Wait,
    /// Forget the latest snapshot.
    Discard,
    /// Send one key: think first (from the latest snapshot) when the queue of
    /// planned keys is empty; then forget the snapshot.
    SendOne { think_first: bool },
    /// Think from the latest snapshot and send all planned keys; then forget
    /// the snapshot.
    SendAll,
}

/// The phase after message `ev` in phase `p`: game over ends a game, a
/// start or a request begins one, other messages leave the phase.
pub open spec fn phase_after(p: ClientPhase, ev: ServerEvent) -> ClientPhase {
    match ev {
        ServerEvent::GameOver => ClientPhase::Over,
        ServerEvent::Start => ClientPhase::Playing,
        ServerEvent::Request(_) => ClientPhase::Playing,
        _ => p,
    }
}

/// What the loop does once the messages are read, in phase `phase` with a
/// move due or not, as a strategy player or not, with or without a kept
/// snapshot and with or without planned keys left.
pub open spec fn decision(phase: ClientPhase, moveflag: bool, strategy: bool, has_display: bool, queue_empty: bool) -> Step {
    if !has_display {
        Step::Wait
    } else if strategy {
        if phase == ClientPhase::Playing && moveflag {
            Step::SendOne { think_first: queue_empty }
        } else {
            Step::Wait
        }
    } else if phase == ClientPhase::Playing {
        Step::SendAll
    } else {
        Step::Discard
    }
}

/// The state of the loop.  A strategy player moves once after each move of
/// the others (`moveflag` marks that one is due); any other player plays
/// out its whole plan whenever it sees its own board.
pub struct ClientState {
    pub phase: ClientPhase,
    pub moveflag: bool,
    pub strategy: bool,
}

impl ClientState {
    /// A loop that has seen nothing yet.
    pub fn new(strategy: bool) -> (s: ClientState)
        ensures
            s.phase == ClientPhase::Waiting,
            !s.moveflag,
            s.strategy == strategy,
    {
        ClientState { phase: ClientPhase::Waiting, moveflag: false, strategy }
    }

    /// Handles one server message: the own board's snapshot is kept; another
    /// board's snapshot makes a strategy player's move due; game over, start
    /// and requests set the phase (requests are accepted); terminate ends the
    /// loop.
    pub fn on_message(&mut self, ev: ServerEvent) -> (act: ReceiveAction)
        ensures
            final(self).strategy == old(self).strategy,
            act == (match ev {
                ServerEvent::Display { own } => if own { ReceiveAction::StoreDisplay } else { ReceiveAction::Nothing },
                ServerEvent::GameOver => ReceiveAction::Nothing,
                ServerEvent::Start => ReceiveAction::Nothing,
                ServerEvent::Request(id) => ReceiveAction::Accept(id),
                ServerEvent::Terminate => ReceiveAction::Quit,
                ServerEvent::Other => ReceiveAction::Skip,
            }),
            final(self).phase == phase_after(old(self).phase, ev),
            final(self).moveflag == (match ev {
                ServerEvent::Display { own } => old(self).moveflag || (!own && old(self).strategy),
                _ => old(self).moveflag,
            }),
    {
        match ev {
            ServerEvent::Display { own } => {
                if own {
                    ReceiveAction::StoreDisplay
                } else {
                    if self.strategy {
                        self.moveflag = true;
                    }
                    ReceiveAction::Nothing
                }
            },
            ServerEvent::GameOver => {
                self.phase = ClientPhase::Over;
                ReceiveAction::Nothing
            },
            ServerEvent::Start => {
                self.phase = ClientPhase::Playing;
                ReceiveAction::Nothing
            },
            ServerEvent::Request(id) => {
                self.phase = ClientPhase::Playing;
                ReceiveAction::Accept(id)
            },
            ServerEvent::Terminate => ReceiveAction::Quit,
            ServerEvent::Other => ReceiveAction::Skip,
        }
    }

    /// Decides what to do once the pending messages are read, given whether
    /// a snapshot of the own board is kept and whether the planned keys are
    /// used up.  A strategy player sends one key when a game runs and its
    /// move is due (which is then no longer due), else waits; any other
    /// player plays out a new plan when a game runs, and in any case forgets
    /// the snapshot.
    pub fn decide(&mut self, has_display: bool, queue_empty: bool) -> (step: Step)
        ensures
            final(self).phase == old(self).phase,
            final(self).strategy == old(self).strategy,
            step == decision(old(self).phase, old(self).moveflag, old(self).strategy, has_display, queue_empty),
            final(self).moveflag == (old(self).moveflag && !(step == Step::SendOne { think_first: queue_empty })),
            !old(self).strategy && has_display && old(self).phase != ClientPhase::Playing ==> step == Step::Discard,
            !old(self).strategy && has_display && old(self).phase == ClientPhase::Playing ==> step == Step::SendAll,
            !has_display ==> step == Step::Wait,
    {
        if !has_display {
            return Step::Wait;
        }
        if self.strategy {
            if self.phase == ClientPhase::Playing && self.moveflag {
                self.moveflag = false;
                Step::SendOne { think_first: queue_empty }
            } else {
                Step::Wait
            }
        } else if self.phase == ClientPhase::Playing {
            Step::SendAll
        } else {
            Step::Discard
        }
    }
}

} // verus!
