//! Single-writer, multi-reader state replication.
//!
//! A [`Leader`] owns the canonical copy of a state and changes it only by applying
//! [`Update`]s. A copy of each update is offered, in the order applied, to every
//! subscriber. A [`Follower`] owns a private replica and rebuilds the leader's
//! state by applying the updates that arrive, in the order in which they arrive.
//! A follower can have subscribers of its own, so followers form relay trees, and
//! it can hold [`Signal`]s that wait for the replica to reach a sequence number.
//!
//! Leaders and followers talk through the two ends of a channel, which the
//! traits [`Sender`] and [`Receiver`] describe. [`Journal`] is a channel in memory;
//! [`SendMap`] and [`RecvMap`] pass messages through a function on their way.
//!
//! [`Sequenced`] numbers the changes of a state. [`DoubleBuffer`] and
//! [`SharedDoubleBuffer`] keep two copies of a state, so that readers never find
//! an update half applied.
//!
//! The laws that tie these parts together are proved in [`converge`].
pub mod converge;
pub mod double_buffer;
pub mod fanout;
pub mod follower;
pub mod journal;
pub mod leader;
pub mod map;
pub mod mpsc;
pub mod sequenced;
pub mod shared_buffer;
pub mod signal;
pub mod transport;
pub mod update;

pub use double_buffer::DoubleBuffer;
pub use fanout::{Delivery, Subscribers};
pub use follower::{FollowError, Follower, Next, Status};
pub use journal::{Dry, Journal};
pub use leader::Leader;
pub use map::{RecvMap, SendMap};
pub use sequenced::Sequenced;
pub use shared_buffer::{Reading, SharedDoubleBuffer};
pub use signal::{Signal, Waiter, Waiters};
pub use transport::{Receiver, RecvError, SendError, Sender, TryRecvError};
pub use update::Update;
