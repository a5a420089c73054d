//! What a connection reports to the protocol logic: a frame of bytes, or the
//! reason why there is none.

use vstd::prelude::*;

verus! {

/// Why a connection delivered no frame.
#[derive(Debug, PartialEq, Eq)]
pub enum TransportError {
    /// The peer shut the connection down in an orderly way.
    ConnectionClosed,
    /// Any other failure of the transport, with its description.
    Io(String),
}

/// Reads the bytes that one read of a connection returned as a frame. A read
/// of no bytes means that the peer has closed the connection; any other read
/// is a frame with those bytes.
pub fn frame_of(bytes: &[u8]) -> (r: Result<Vec<u8>, TransportError>)
    ensures
        bytes@.len() == 0 ==> r == Err::<Vec<u8>, TransportError>(TransportError::ConnectionClosed),
        bytes@.len() > 0 ==> r is Ok && r->Ok_0@ == bytes@,
{
    if bytes.len() == 0 {
        Err(TransportError::ConnectionClosed)
    } else {
        let mut frame: Vec<u8> = Vec::new();
        let mut i: usize = 0;
        while i < bytes.len()
            invariant
                i <= bytes.len(),
                frame@ == bytes@.take(i as int),
            decreases bytes.len() - i,
        {
            frame.push(bytes[i]);
            i += 1;
        }
        assert(bytes@.take(i as int) =~= bytes@);
        Ok(frame)
    }
}

} // verus!
