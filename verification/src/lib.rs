//! Automatic provisioning of TLS certificates over an ACME-style protocol:
//! key authorizations, the persistent certificate cache, the certificate
//! resolver consulted on every handshake, and the issuance state machine.
//! Request routing state and small listener and middleware decisions live
//! beside them.

pub mod acme;
pub mod cache;
pub mod certgen;
pub mod compression;
pub mod encoding;
pub mod issuer;
pub mod issuer_proofs;
pub mod jose;
pub mod listener;
pub mod logging;
pub mod resolver;
pub mod routing;
pub mod text;
