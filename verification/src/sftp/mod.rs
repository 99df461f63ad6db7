pub mod attributes;
pub mod client;
pub mod constants;
pub mod error;
pub mod packet;
pub mod path;
pub mod protocol;
pub mod reader;
pub mod round_trip;
pub mod session;
pub mod test_utils;
pub mod types;
pub mod wire;

pub use client::SftpClient;
pub use types::SftpCommand;
