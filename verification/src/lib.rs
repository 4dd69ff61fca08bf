//! Certificate chain handling for SEV-SNP hosts: the firmware certificate
//! table codec, certificate encodings, chain verification and the addressing
//! of the key distribution service.

pub mod bytes;
pub mod certificate;
pub mod chain;
pub mod codec;
pub mod encoding;
pub mod error;
pub mod export;
pub mod fetch;
pub mod import;
pub mod table;
pub mod text;
pub mod x509;
