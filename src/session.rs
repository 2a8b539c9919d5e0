use vstd::prelude::*;

verus! {

/// The kinds of request a client may send.
#[derive(Clone, Copy, Debug, PartialEq, Eq, Structural)]
pub enum RequestKind {
    Submit,
    Resubmit,
    JobInfo,
    JobDetail,
    Cancel,
    WaitForJobs,
    WorkerList,
    WorkerInfo,
    StopWorker,
    Stats,
    AutoAlloc,
    MonitoringEvents,
    Stop,
}

/// What arrived on a session.
#[derive(Clone, Copy, Debug, PartialEq, Eq, Structural)]
pub enum Incoming {
    /// A request that decoded.
    Request(RequestKind),
    /// A message that did not decode.
    Malformed,
    /// The client closed the stream.
    Closed,
}

/// What the session does next.
#[derive(Clone, Copy, Debug, PartialEq, Eq, Structural)]
pub enum SessionAction {
    /// Run the handler of this request and send its one response.
    Handle(RequestKind),
    /// Send an error message and go on reading.
    SendError,
    /// Signal the server to shut down and end the session without a response.
    Shutdown,
    /// End the session.
    End,
}

/// One client session: it reads a request only once the response to the
/// previous one has been sent.
#[derive(Clone, Copy, Debug, PartialEq, Eq, Structural)]
pub struct Session {
    pub open: bool,
    pub awaiting_send: bool,
}

pub open spec fn action_for(incoming: Incoming) -> SessionAction {
    match incoming {
        Incoming::Request(RequestKind::Stop) => SessionAction::Shutdown,
        Incoming::Request(kind) => SessionAction::Handle(kind),
        Incoming::Malformed => SessionAction::SendError,
        Incoming::Closed => SessionAction::End,
    }
}

/// The session after `incoming` arrived on `s`.
pub open spec fn after_incoming(s: Session, incoming: Incoming) -> Session {
    let a = action_for(incoming);
    if a is Handle || a is SendError {
        Session { open: s.open, awaiting_send: true }
    } else {
        Session { open: false, awaiting_send: s.awaiting_send }
    }
}

impl Session {
    pub open spec fn receiving(self) -> bool {
        self.open && !self.awaiting_send
    }

    pub fn new() -> (r: Session)
        ensures
            r.open && !r.awaiting_send,
    {
        Session { open: true, awaiting_send: false }
    }

    /// Whether the next message may be read.
    pub fn can_receive(&self) -> (r: bool)
        ensures
            r == self.receiving(),
    {
        self.open && !self.awaiting_send
    }

    /// Decides what to do with what arrived. A request or a malformed message
    /// leaves a response to send first; a stop or a closed stream ends the
    /// session.
    pub fn on_incoming(&mut self, incoming: Incoming) -> (r: SessionAction)
        requires
            old(self).open && !old(self).awaiting_send,
        ensures
            r == action_for(incoming),
            *final(self) == after_incoming(*old(self), incoming),
    {
        let r = match incoming {
            Incoming::Request(RequestKind::Stop) => SessionAction::Shutdown,
            Incoming::Request(kind) => SessionAction::Handle(kind),
            Incoming::Malformed => SessionAction::SendError,
            Incoming::Closed => SessionAction::End,
        };
        match r {
            SessionAction::Handle(_) | SessionAction::SendError => {
                self.awaiting_send = true;
            },
            _ => {
                self.open = false;
            },
        }
        r
    }

    /// The response has been sent; `ok` is false when sending failed, which
    /// ends the session.
    pub fn on_sent(&mut self, ok: bool)
        requires
            old(self).awaiting_send,
        ensures
            *final(self) == (Session { open: old(self).open && ok, awaiting_send: false }),
    {
        self.awaiting_send = false;
        if !ok {
            self.open = false;
        }
    }
}

/// Requests are served in order: once a message has been taken, no further
/// message is read until its response has been sent, and a session that
/// reads again has sent it.
pub proof fn lemma_one_request_at_a_time(s: Session, incoming: Incoming, sent: bool)
    requires
        s.receiving(),
    ensures
        !after_incoming(s, incoming).receiving(),
        after_incoming(s, incoming).awaiting_send ==> (Session {
            open: after_incoming(s, incoming).open && sent,
            awaiting_send: false,
        }).receiving() == sent,
{
}

/// The first event that a request for monitoring events asks for: the one
/// after `after_id`, or after 0 when none is given.
pub fn monitoring_after(after_id: Option<u32>) -> (r: u32)
    ensures
        r == match after_id {
            Some(id) => id,
            None => 0,
        },
{
    match after_id {
        Some(id) => id,
        None => 0,
    }
}

} // verus!
