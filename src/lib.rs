//! A chat client core for a tag-augmented IRC dialect: line decoding, a command
//! registry with placeholder parity, and a dispatch engine with per-command cooldowns.
pub mod text;
pub mod bot_command;
pub mod private_message;
pub mod command_parser;
pub mod cooldown;
pub mod chat_bot;
pub mod handshake;
