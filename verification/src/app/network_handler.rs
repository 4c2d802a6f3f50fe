//! The server's messages as the game takes them in (see `network_receiver`).

pub use crate::app::network_receiver::{ProcessedMessageResult, process_received_messages, first_rejected_entity};
