//! A small reminder library: parse a compact duration string such as
//! `2h30m` into hours and minutes, and drive a wait-then-alert loop as a
//! state machine whose transitions are fully specified.

pub mod alert;
pub mod delta;

pub use alert::AlertAction;
pub use alert::AlertState;
pub use alert::ReminderConfig;
pub use delta::Delta;
pub use delta::DeltaError;
