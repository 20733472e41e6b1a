use vstd::prelude::*;

verus! {

/// The value the socket's open handler signals once the connection is open.
pub const OPEN_SIGNAL: i32 = 1;

/// The value the socket's error handler signals when the connection failed.
pub const ERROR_SIGNAL: i32 = 0;

/// Why connecting failed after the socket was created.
#[derive(Debug, Clone, Copy, PartialEq, Eq)]
pub enum ConnectError {
    /// The channel of open signals closed before any signal came.
    NoSignal,
    /// The socket signalled anything but an opened connection.
    Refused,
}

/// The outcome of connecting, from the first open signal (`None` when the channel closed
/// before any came).
pub fn connect_status(signal: Option<i32>) -> (r: Result<(), ConnectError>)
    ensures
        r is Ok <==> signal == Some(OPEN_SIGNAL),
        signal is None ==> r == Err::<(), ConnectError>(ConnectError::NoSignal),
        (signal matches Some(s) && s != OPEN_SIGNAL) ==> r == Err::<(), ConnectError>(
            ConnectError::Refused,
        ),
{
    match signal {
        None => Err(ConnectError::NoSignal),
        Some(s) => if s == OPEN_SIGNAL {
            Ok(())
        } else {
            Err(ConnectError::Refused)
        },
    }
}

/// Whether the client must be disconnected when the user's reader task ends: it asks
/// for it with `Ok(true)`, and a failed reader always disconnects.
pub fn should_disconnect(reader_result: Result<bool, String>) -> (r: bool)
    ensures
        r == match reader_result {
            Ok(d) => d,
            Err(_) => true,
        },
{
    match reader_result {
        Ok(disconnect) => disconnect,
        Err(_) => true,
    }
}

/// The URL of a plain websocket at `addr`.
pub fn ws_url(addr: &str) -> (url: String)
    ensures
        url@ == "ws://"@ + addr@,
{
    String::from_str("ws://").concat(addr)
}

/// The URL of a TLS websocket at `addr`.
pub fn wss_url(addr: &str) -> (url: String)
    ensures
        url@ == "wss://"@ + addr@,
{
    String::from_str("wss://").concat(addr)
}

} // verus!
