//! Vault: file and folder encryption with AES-256-CTR, PBKDF2 key
//! derivation, a self-describing metadata trailer and deterministic
//! name encryption.

pub mod crypto;
pub mod text;
pub mod name_encrypt;
pub mod metadata;
pub mod error;
pub mod file_ops;
pub mod folder_hide;
pub mod validate;
pub mod dir_ops;
pub mod tree;
pub mod app;
pub mod fonts;
