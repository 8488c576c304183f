//! VaultSync engine library: key hierarchy, encrypted vault containers and
//! index, peer-to-peer sync decisions and the relay protocol, with their
//! contracts proved by Verus.
pub mod audit;
pub mod clock;
pub mod crypto;
pub mod idmap;
pub mod p2p;
pub mod relay;
pub mod stego;
pub mod strmap;
pub mod text;
pub mod vault;
pub mod vaultcore;
pub mod vclock;
