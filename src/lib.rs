//! Rendezvous and dead-drop messaging between holders of threshold-issued
//! identity credentials: deterministic store addresses, tagged slot
//! semantics, the issuance coordinator and the directory service.

pub mod address;
pub mod rendezvous;
pub mod discovery;
pub mod directory;
pub mod deaddrop;
pub mod freshness;
pub mod issuance;
pub mod notify;
pub mod identity;
pub mod contacts;
pub mod registrar;
