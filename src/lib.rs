//! Retention-policy enforcement for chat channels: the durable backup queue
//! and the upload worker's decisions, the cancellation registry and the
//! scheduler's check-and-register step, the cleanup pass's pagination,
//! classification and deletion plan, the cloud client's upload planning and
//! sign-in decisions, the bot's settings, and the dashboard's file naming
//! and time text.

pub mod cleanup;
pub mod config;
pub mod onedrive;
pub mod queue;
pub mod registry;
pub mod storage;
pub mod text;
pub mod views;
