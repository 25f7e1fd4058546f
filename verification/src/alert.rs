use vstd::prelude::*;

use crate::delta::Delta;

verus! {

/// Configuration for one reminder: the parsed duration, whether to alert
/// only once, and the message to show.
pub struct ReminderConfig {
    pub delta: Delta,
    pub once: bool,
    pub message: String,
}

/// The message shown when none was given.
pub open spec fn default_message() -> Seq<char> {
    "Time is up!"@
}

/// Where the reminder stands: not yet started, sleeping out the delay,
/// alerting, or finished.
#[derive(Clone, Copy, Debug, PartialEq, Eq, Structural)]
pub enum AlertState {
    Idle,
    Waiting,
    Alerting,
    Done,
}

/// What the caller must do after a step: sleep out the delay, show the
/// alert (after sleeping `delay_seconds` first; `first` asks for a cleared
/// screen), or stop.
#[derive(Clone, Copy, Debug, PartialEq, Eq, Structural)]
pub enum AlertAction {
    Wait { seconds: u64 },
    Alert { first: bool, delay_seconds: u64 },
    Stop,
}

impl ReminderConfig {
    /// Build a configuration; a missing message falls back to the default.
    pub fn new(delta: Delta, once: bool, message: Option<String>) -> (r: ReminderConfig)
        ensures
            r.delta == delta,
            r.once == once,
            (match message {
                Some(m) => r.message@ == m@,
                None => r.message@ == default_message(),
            }),
    {
        let msg = match message {
            Some(m) => m,
            None => "Time is up!".to_owned(),
        };
        ReminderConfig { delta, once, message: msg }
    }

    /// One transition of the reminder state machine: from idle, sleep out
    /// the whole duration; after the sleep, alert; then either stop (once
    /// mode) or repeat the alert every thirty seconds.
    pub fn step(&self, state: AlertState) -> (r: (AlertState, AlertAction))
        ensures
            state is Idle ==> r.0 is Waiting && r.1 == (AlertAction::Wait {
                seconds: self.delta.spec_total_seconds(),
            }),
            state is Waiting ==> r.0 is Alerting && r.1 == (AlertAction::Alert {
                first: true,
                delay_seconds: 0u64,
            }),
            state is Alerting && self.once ==> r.0 is Done && r.1 is Stop,
            state is Alerting && !self.once ==> r.0 is Alerting && r.1 == (AlertAction::Alert {
                first: false,
                delay_seconds: 30u64,
            }),
            state is Done ==> r.0 is Done && r.1 is Stop,
    {
        match state {
            AlertState::Idle => (
                AlertState::Waiting,
                AlertAction::Wait { seconds: self.delta.total_seconds() },
            ),
            AlertState::Waiting => (
                AlertState::Alerting,
                AlertAction::Alert { first: true, delay_seconds: 0 },
            ),
            AlertState::Alerting => {
                if self.once {
                    (AlertState::Done, AlertAction::Stop)
                } else {
                    (AlertState::Alerting, AlertAction::Alert { first: false, delay_seconds: 30 })
                }
            },
            AlertState::Done => (AlertState::Done, AlertAction::Stop),
        }
    }
}

} // verus!
