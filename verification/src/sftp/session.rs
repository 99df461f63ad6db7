//! The transport that the protocol engine talks through.

use super::error::SftpError;
use super::packet::{ClientPacket, ServerPacket};
use vstd::prelude::*;

verus! {

/// A channel to a server that carries one request at a time: a request goes
/// out, and the next response that comes in answers it. Whether a send or a
/// receive succeeds, and which ids it gives out, is the transport's own
/// affair; an id that it gave out once it should not give out again.
pub trait TransportLayer: Send {
    /// Sends one request.
    fn send_packet(&mut self, packet: ClientPacket) -> Result<(), SftpError>;

    /// Waits for the next response.
    fn receive_packet(&mut self) -> Result<ServerPacket, SftpError>;

    /// Allocates the id of the next request.
    fn next_request_id(&mut self) -> u32;
}

} // verus!
