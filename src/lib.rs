//! A line-oriented task protocol: a codec that frames `"<id> <difficulty>\n"`
//! requests out of a byte buffer and renders responses back into it, and the
//! decision rules of a dispatcher that races each task against a deadline.
pub mod buffer;
pub mod codec;
pub mod decimal;
pub mod dispatch;

pub use codec::{Completion, Request, Response, TaskCodec, TaskProto};
pub use dispatch::{Dispatcher, Plan, RaceEvent};
