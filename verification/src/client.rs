use vstd::prelude::*;

verus! {

/// Why a client operation was refused.
#[derive(Debug, Clone, PartialEq, Eq)]
pub enum ClientError {
    /// The connection was closed by `disconnect`.
    Disconnected,
    /// A borrowed buffer to send held no byte.
    EmptyBuffer,
    /// Closing the websocket failed; the text is what the socket reported.
    CloseFailed(String),
}

/// What the writer must put on the wire for one send, and the count the send returns.
#[derive(Debug, Clone, PartialEq, Eq)]
pub struct SendPlan {
    /// The binary message to transmit, if any.
    pub frame: Option<Vec<u8>>,
    /// The number of bytes the send reports as written.
    pub written: usize,
}

/// What `close` asks of the socket.
#[derive(Debug, Clone, Copy, PartialEq, Eq)]
pub enum CloseStep {
    /// The socket is open: close it and report the outcome to `close_finished`.
    CallClose,
    /// The socket was closed before: nothing to do, and the close succeeds.
    AlreadyClosed,
}

/// The error a send meets, if any: an empty borrowed buffer is refused first,
/// then any send on a closed connection.
pub open spec fn send_error(disconnected: bool, buff: Seq<u8>, by_ref: bool) -> Option<ClientError> {
    if by_ref && buff.len() == 0 {
        Some(ClientError::EmptyBuffer)
    } else if disconnected {
        Some(ClientError::Disconnected)
    } else {
        None
    }
}

/// The message a send transmits: a plain write sends `buff` as one message, even an
/// empty one; a write of the whole buffer sends nothing for an empty buffer.
pub open spec fn frame_for(buff: Seq<u8>, whole: bool) -> Option<Seq<u8>> {
    if whole && buff.len() == 0 {
        None
    } else {
        Some(buff)
    }
}

/// Whether `close` must call the socket.
pub open spec fn close_needed(disconnected: bool) -> bool {
    !disconnected
}

/// The disconnect flag after the socket answered a close call.
pub open spec fn disconnected_after_close(disconnected: bool, closed_ok: bool) -> bool {
    disconnected || closed_ok
}

/// The message that a plan carries, by its view.
pub open spec fn plan_frame(plan: SendPlan) -> Option<Seq<u8>> {
    match plan.frame {
        Some(f) => Some(f@),
        None => None,
    }
}

/// The state of a websocket client: the address it connected to and whether it was
/// disconnected.
pub struct WebSocketClient {
    ws_url: String,
    disconnect: bool,
}

impl WebSocketClient {
    /// The address the client connected to.
    pub closed spec fn url(&self) -> Seq<char> {
        self.ws_url@
    }

    /// Whether the client was disconnected.
    pub closed spec fn disconnected(&self) -> bool {
        self.disconnect
    }

    /// A connected client for the websocket at `ws_url`.
    pub fn new(ws_url: String) -> (c: Self)
        ensures
            c.url() == ws_url@,
            !c.disconnected(),
    {
        WebSocketClient { ws_url, disconnect: false }
    }

    /// The address the client connected to.
    pub fn get_addr(&self) -> (r: String)
        ensures
            r@ == self.url(),
    {
        self.ws_url.clone()
    }

    /// Whether the client was disconnected.
    pub fn is_disconnect(&self) -> (r: bool)
        ensures
            r == self.disconnected(),
    {
        self.disconnect
    }

    /// A plain write of `buff`: refused once disconnected; otherwise `buff` goes out
    /// as one message and its length is reported.
    pub fn send(&self, buff: &[u8]) -> (r: Result<SendPlan, ClientError>)
        ensures
            !self.disconnected() ==> r is Ok,
            r is Err <==> send_error(self.disconnected(), buff@, false) is Some,
            r matches Err(e) ==> send_error(self.disconnected(), buff@, false) == Some(e),
            r matches Ok(p) ==> plan_frame(p) == frame_for(buff@, false) && p.written == buff@.len(),
            r matches Ok(p) ==> (p.frame matches Some(f) && f@ == buff@),
    {
        if !self.disconnect {
            Ok(SendPlan { frame: Some(slice_to_bytes(buff)), written: buff.len() })
        } else {
            Err(ClientError::Disconnected)
        }
    }

    /// A write of the whole of `buff`: refused once disconnected; otherwise `buff`
    /// goes out as one message, or none when it is empty.
    pub fn send_all(&self, buff: &[u8]) -> (r: Result<SendPlan, ClientError>)
        ensures
            !self.disconnected() ==> r is Ok,
            r is Err <==> send_error(self.disconnected(), buff@, false) is Some,
            r matches Err(e) ==> send_error(self.disconnected(), buff@, false) == Some(e),
            r matches Ok(p) ==> plan_frame(p) == frame_for(buff@, true) && p.written == buff@.len(),
            r matches Ok(p) ==> (buff@.len() > 0 ==> (p.frame matches Some(f) && f@ == buff@)),
            r matches Ok(p) ==> (buff@.len() == 0 ==> p.frame is None),
    {
        if !self.disconnect {
            let frame = if buff.len() == 0 {
                None
            } else {
                Some(slice_to_bytes(buff))
            };
            Ok(SendPlan { frame, written: buff.len() })
        } else {
            Err(ClientError::Disconnected)
        }
    }

    /// `send` of a borrowed buffer, which must not be empty.
    pub fn send_ref(&self, buff: &[u8]) -> (r: Result<SendPlan, ClientError>)
        ensures
            !self.disconnected() && buff@.len() > 0 ==> r is Ok,
            r is Err <==> send_error(self.disconnected(), buff@, true) is Some,
            r matches Err(e) ==> send_error(self.disconnected(), buff@, true) == Some(e),
            r matches Ok(p) ==> plan_frame(p) == frame_for(buff@, false) && p.written == buff@.len(),
            r matches Ok(p) ==> (p.frame matches Some(f) && f@ == buff@),
    {
        if buff.len() == 0 {
            return Err(ClientError::EmptyBuffer);
        }
        self.send(buff)
    }

    /// `send_all` of a borrowed buffer, which must not be empty.
    pub fn send_all_ref(&self, buff: &[u8]) -> (r: Result<SendPlan, ClientError>)
        ensures
            !self.disconnected() && buff@.len() > 0 ==> r is Ok,
            r is Err <==> send_error(self.disconnected(), buff@, true) is Some,
            r matches Err(e) ==> send_error(self.disconnected(), buff@, true) == Some(e),
            r matches Ok(p) ==> plan_frame(p) == frame_for(buff@, true) && p.written == buff@.len(),
            r matches Ok(p) ==> (buff@.len() > 0 ==> (p.frame matches Some(f) && f@ == buff@)),
            r matches Ok(p) ==> (buff@.len() == 0 ==> p.frame is None),
    {
        if buff.len() == 0 {
            return Err(ClientError::EmptyBuffer);
        }
        self.send_all(buff)
    }

    /// Flushing: nothing is buffered on the client's side, so it only fails once
    /// disconnected.
    pub fn flush(&self) -> (r: Result<(), ClientError>)
        ensures
            r is Err <==> self.disconnected(),
            r matches Err(e) ==> e == ClientError::Disconnected,
    {
        if !self.disconnect {
            Ok(())
        } else {
            Err(ClientError::Disconnected)
        }
    }

    /// The first half of a close: whether the socket must be closed.
    pub fn close(&self) -> (step: CloseStep)
        ensures
            (step == CloseStep::CallClose) == close_needed(self.disconnected()),
    {
        if !self.disconnect {
            CloseStep::CallClose
        } else {
            CloseStep::AlreadyClosed
        }
    }

    /// The second half of a close, with what the socket answered: on success the
    /// client is disconnected; on failure it stays as it was and the error is reported.
    pub fn close_finished(&mut self, outcome: Result<(), String>) -> (r: Result<(), ClientError>)
        ensures
            final(self).url() == old(self).url(),
            final(self).disconnected() == disconnected_after_close(
                old(self).disconnected(),
                outcome is Ok,
            ),
            r is Ok <==> outcome is Ok,
            r matches Err(e) ==> outcome matches Err(m) && e == ClientError::CloseFailed(m),
    {
        match outcome {
            Ok(()) => {
                self.disconnect = true;
                Ok(())
            },
            Err(m) => Err(ClientError::CloseFailed(m)),
        }
    }
}

/// The bytes of `buff` in a vector of their own.
fn slice_to_bytes(buff: &[u8]) -> (v: Vec<u8>)
    ensures
        v@ == buff@,
{
    let mut v: Vec<u8> = Vec::new();
    let mut i: usize = 0;
    while i < buff.len()
        invariant
            i <= buff@.len(),
            v@ == buff@.subrange(0, i as int),
        decreases buff@.len() - i,
    {
        v.push(buff[i]);
        i = i + 1;
        assert(v@ =~= buff@.subrange(0, i as int));
    }
    assert(buff@.subrange(0, i as int) =~= buff@);
    v
}

/// Disconnecting is final: once a close succeeded, every later close asks nothing of
/// the socket and leaves the client disconnected whatever happens, and every send
/// is refused (an empty borrowed buffer with `EmptyBuffer`, any other with
/// `Disconnected`).
pub proof fn lemma_disconnect_is_final(
    disconnected: bool,
    later_outcome: bool,
    buff: Seq<u8>,
    by_ref: bool,
)
    ensures
        ({
            let after = disconnected_after_close(disconnected, true);
            &&& after
            &&& !close_needed(after)
            &&& disconnected_after_close(after, later_outcome)
            &&& send_error(after, buff, by_ref) is Some
            &&& !(by_ref && buff.len() == 0) ==> send_error(after, buff, by_ref) == Some(
                ClientError::Disconnected,
            )
        }),
{
}

/// A send transmits the caller's bytes untouched: a plain send puts out exactly the
/// given buffer, empty or not, and a whole-buffer send puts out exactly the given
/// buffer when it holds any byte and nothing when it is empty.
pub proof fn lemma_send_transmits_whole_buffer(buff: Seq<u8>)
    ensures
        frame_for(buff, false) == Some(buff),
        buff.len() > 0 ==> frame_for(buff, true) == Some(buff),
        buff.len() == 0 ==> frame_for(buff, true) is None,
{
}

/// A connected client refuses no send but that of an empty borrowed buffer, and a
/// send of an owned buffer is refused exactly when the client was disconnected.
pub proof fn lemma_connected_refuses_only_empty_borrowed(
    disconnected: bool,
    buff: Seq<u8>,
    by_ref: bool,
)
    ensures
        !(by_ref && buff.len() == 0) ==> send_error(false, buff, by_ref) is None,
        send_error(disconnected, buff, false) is Some <==> disconnected,
        buff.len() > 0 ==> (send_error(disconnected, buff, true) is Some <==> disconnected),
{
}

/// A failed close changes nothing: the client stays connected when it was.
pub proof fn lemma_failed_close_keeps_state(disconnected: bool)
    ensures
        disconnected_after_close(disconnected, false) == disconnected,
{
}

/// The borrowed sends differ from the owned ones only in refusing an empty buffer.
pub proof fn lemma_ref_sends_refuse_only_empty(disconnected: bool, buff: Seq<u8>)
    ensures
        buff.len() > 0 ==> send_error(disconnected, buff, true) == send_error(
            disconnected,
            buff,
            false,
        ),
        buff.len() == 0 ==> send_error(disconnected, buff, true) == Some(ClientError::EmptyBuffer),
{
}

} // verus!
