//! Hermes: a manager of TOTP secrets kept in a JSON-lines codex file.
//!
//! The library holds the logic of the commands, verified with Verus: the
//! checks on secrets and aliases, the edits of the codex, the import of
//! `otpauth://` URIs and the text of the OTP table.
pub mod args;
mod clock;
pub mod cmd;
pub mod codex;
pub mod models;
pub mod otpauth;
pub mod text;
pub mod ui;
