//! A protocol bridge between a lightweight pub/sub broker and a
//! log-structured message queue: it subscribes to a fixed set of inbound
//! topics, remaps selected topic names to outbound topic names, and forwards
//! each matching payload to the outbound producer as a fresh record.
//!
//! The verified core is the connection/session lifecycle state machine and
//! the forwarding loop: topic routing, bounded reconnection, graceful
//! shutdown, and the dispatch of every inbound stream element.

pub mod bridge;
pub mod forward;
pub mod router;
pub mod session;
