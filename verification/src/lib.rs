//! A client for the SFTP (version 3) subsystem of SSH, with its wire codec,
//! protocol engine and session layer stated and proved over mathematical models.

pub mod interface;
pub mod sftp;
pub mod util;
