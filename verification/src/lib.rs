//! Verified core of the local Codex integration: reading the Codex CLI's
//! `auth.json` and `config.toml`, expanding a ChatGPT login into one import
//! item per workspace, matching stored accounts against the current login, and
//! writing a stored account back as the current Codex login.
pub mod text;
pub mod json;
pub mod order;
pub mod jwt;
pub mod workspace;
pub mod auth;
pub mod import;
pub mod accounts;
pub mod switch;
pub mod paths;
pub mod projects;
