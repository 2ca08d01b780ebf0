//! Decryption engine for locally downloaded, DRM-protected ebooks.
//!
//! The library covers key derivation from a book's companion key file,
//! whole-file (v1) and per-zip-entry (v11) AES-128-CBC content decryption,
//! already-decrypted detection, library-root discovery with confidence
//! scoring, and the resumable batch-processing state. Filesystem walking,
//! network access and user interaction live outside the library and hand
//! it plain values.

pub mod archive;
pub mod config;
pub mod crypto;
pub mod discovery;
pub mod engine;
pub mod resolve;
pub mod state;
pub mod types;
