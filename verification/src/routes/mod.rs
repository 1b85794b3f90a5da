//! Request handling logic, one module per group of endpoints.
pub mod auth;
pub mod challenge;
pub mod admin;
pub mod federation;
pub mod federated_dispatch;
pub mod livekit_proxy;
pub mod voice;
pub mod bots;
pub mod channels;
pub mod commands;
pub mod guilds;
pub mod users;
pub mod interactions;
pub mod realtime;
pub mod catchup;
pub mod files;
