//! Decrypts the inline vault blocks of a YAML document and puts the plaintext
//! back in place, keeping the document's layout.
//!
//! - `text`: whitespace, trimming and line splitting on characters.
//! - `scan`: header lines and the extent and ciphertext of each block.
//! - `vault`: decryption, trying each credential in order.
//! - `render`: the lines that replace a decrypted block.
//! - `convert`: the whole document, and the laws that hold of it.
//! - `credentials`: which password sources are consulted, and in what order.

pub mod convert;
pub mod credentials;
pub mod render;
pub mod scan;
pub mod text;
pub mod vault;
