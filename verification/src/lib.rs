//! Command pipeline for a four-zone USB RGB lighting peripheral: zone-name
//! resolution, validated lighting commands, last-write-wins compression,
//! fixed-size frame encoding, and a bounded retry/repeat dispatch policy.

pub mod color;
pub mod command;
pub mod dispatch;
pub mod target;

pub use color::Color;
pub use color::ParseColorError;
pub use command::Command;
pub use dispatch::DispatchAction;
pub use dispatch::DispatchEvent;
pub use dispatch::Dispatcher;
pub use target::Target;
