//! Inkstone's verified core: the encrypted file and key-envelope formats,
//! recovery codes, vault manifests, document metadata and search helpers.
//! Reading and writing files, SQLite and the desktop shell live outside.

pub mod text;
pub mod crypto;
pub mod recovery;
pub mod json;
pub mod codec;
pub mod vault;
pub mod docs;
pub mod index;
pub mod assets;
pub mod session;
