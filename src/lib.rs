//! Core of a clipboard history manager: an encrypted, de-duplicated content
//! store with retention and pin ordering, the capture decisions that feed it,
//! and the image transcoding applied to captured pictures.

/// Small byte-vector helpers.
pub mod bytes;
/// Capture decisions: change detection, self-copy suppression, candidates, re-copy.
pub mod capture;
/// Authenticated encryption of payloads (AES-256-GCM).
pub mod crypto;
/// Content digests used for de-duplication.
pub mod digest;
/// Clipboard entries and their stored rows.
pub mod entry;
/// The mathematical model of the history and its laws.
pub mod history;
/// Menu icons and their cache.
pub mod icons;
/// Data directory and key material.
pub mod paths;
/// Retention over a sequence of stores.
pub mod retention;
/// User preferences.
pub mod settings;
/// The history store.
pub mod storage;
/// Text helpers: decoding, case folding, substring search.
pub mod text;
/// Image transcoding of captured pictures.
pub mod transcode;
/// Tray menu labels, previews and sections.
pub mod tray;
