//! Decisions of small distributed protocols, each with its contract.
//!
//! The heart of the crate is a group-membership service for a fixed
//! registry of named processes. One process leads. It owns the
//! authoritative membership view and changes it one member at a time, and
//! only after every other current member has acknowledged the change.
//! Liveness is judged from periodic heartbeats, and a member that falls
//! silent is removed by the same rounds that add one.
//!
//! - `identity`: the processes of the registry.
//! - `view`: the membership view and its written forms.
//! - `message`: the messages of the protocol and their text on the wire.
//! - `leader`: the authoritative view, the rounds and the commit rule.
//! - `member`: joining, acknowledging proposals, adopting announced views.
//! - `heartbeat`: the table of heartbeats, the monitors and the removals.
//! - `locator`: finding the leader.
//! - `report`: the one-line reports of view changes and unreachable peers.
//!
//! Beside it stand the rules of three other protocols: a token that
//! travels round a ring with a snapshot of the ring (`token`), a
//! single-decree consensus round (`paxos`), and a ring overlay that stores
//! objects (`ring`, `objects`). `text` holds what they share: trimming,
//! splitting and numbers in base ten.
//!
//! Nothing here opens a socket, reads a clock or starts a thread. The
//! caller hands in the lines it has read and the time, and carries out
//! what the functions return.

pub mod heartbeat;
pub mod identity;
pub mod leader;
pub mod locator;
pub mod member;
pub mod message;
pub mod objects;
pub mod paxos;
pub mod report;
pub mod ring;
pub mod text;
pub mod token;
pub mod view;
