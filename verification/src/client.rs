//! The protocol client's session logic: what to do next on one connection,
//! and how each outside outcome changes the session.
//!
//! The caller owns the socket and runs the loop: it asks `next_action`,
//! performs the connect, write or read, and hands the outcome back through
//! the `on_*` methods. Every decision — which error a failure becomes, when
//! the exchange is complete — is made here, under contract. A session that
//! fails never reaches a later phase: there is no partial success.

use vstd::prelude::*;

use crate::codec::be64_val;
use crate::errors::JokerError;
use crate::protocol::{decode_response_text, utf8_decoded};

verus! {

/// Where one request/response exchange stands.
pub enum Phase {
    /// No connection yet.
    Start,
    /// Connected; the request bytes still have to be written.
    Connected,
    /// Request written; the 8-byte big-endian response length is pending.
    AwaitHeader,
    /// Header read; `expect` response bytes are pending.
    AwaitBody { expect: u64 },
    /// The exchange ended well: the decoded response text, or nothing for a
    /// request that reads no response.
    Complete { text: Option<String> },
    /// The exchange failed; the connection is abandoned.
    Failed { error: JokerError },
}

/// What the caller must do next on the connection.
pub enum ClientAction {
    /// Open the stream connection to the current daemon's address.
    Connect,
    /// Write the whole request.
    Write,
    /// Read exactly 8 bytes: the response length prefix.
    ReadHeader,
    /// Read exactly `count` bytes: the response body.
    ReadBody { count: u64 },
    /// Nothing: the session is complete or failed.
    Stop,
}

/// One request/response exchange over one connection.
pub struct ClientSession {
    /// Whether the request reads a framed response back (`Trace` and `Logs`
    /// do, `Run` does not).
    pub expects_response: bool,
    pub phase: Phase,
}

impl ClientSession {
    /// A fresh session, nothing done yet.
    pub fn new(expects_response: bool) -> (s: ClientSession)
        ensures
            s.phase is Start,
            s.expects_response == expects_response,
    {
        ClientSession { expects_response, phase: Phase::Start }
    }

    /// The next step the caller must perform.
    pub fn next_action(&self) -> (a: ClientAction)
        ensures
            match self.phase {
                Phase::Start => a is Connect,
                Phase::Connected => a is Write,
                Phase::AwaitHeader => a is ReadHeader,
                Phase::AwaitBody { expect } => a matches ClientAction::ReadBody { count }
                    && count == expect,
                Phase::Complete { .. } => a is Stop,
                Phase::Failed { .. } => a is Stop,
            },
    {
        match &self.phase {
            Phase::Start => ClientAction::Connect,
            Phase::Connected => ClientAction::Write,
            Phase::AwaitHeader => ClientAction::ReadHeader,
            Phase::AwaitBody { expect } => ClientAction::ReadBody { count: *expect },
            Phase::Complete { .. } => ClientAction::Stop,
            Phase::Failed { .. } => ClientAction::Stop,
        }
    }

    /// The connect outcome. An unreachable or refusing address fails the
    /// whole session with `ConnectFailure` before anything is sent; nothing
    /// of the request reaches the daemon.
    pub fn on_connect(&mut self, ok: bool)
        requires
            old(self).phase is Start,
        ensures
            final(self).expects_response == old(self).expects_response,
            ok ==> final(self).phase is Connected,
            !ok ==> (final(self).phase matches Phase::Failed { error }
                && error == JokerError::ConnectFailure),
    {
        if ok {
            self.phase = Phase::Connected;
        } else {
            self.phase = Phase::Failed { error: JokerError::ConnectFailure };
        }
    }

    /// The write outcome. A request that expects no response is complete as
    /// soon as it is written; a failed write mid-frame abandons the request
    /// with `IOFailure`.
    pub fn on_write(&mut self, ok: bool)
        requires
            old(self).phase is Connected,
        ensures
            final(self).expects_response == old(self).expects_response,
            ok && old(self).expects_response ==> final(self).phase is AwaitHeader,
            ok && !old(self).expects_response ==> (final(self).phase matches Phase::Complete {
                text,
            } && text is None),
            !ok ==> (final(self).phase matches Phase::Failed { error } && error
                == JokerError::IOFailure),
    {
        if !ok {
            self.phase = Phase::Failed { error: JokerError::IOFailure };
        } else if self.expects_response {
            self.phase = Phase::AwaitHeader;
        } else {
            self.phase = Phase::Complete { text: None };
        }
    }

    /// The header read outcome: 8 bytes, or nothing when the read failed.
    /// The big-endian integer they hold is how many body bytes follow.
    pub fn on_header(&mut self, header: Option<Vec<u8>>)
        requires
            old(self).phase is AwaitHeader,
        ensures
            final(self).expects_response == old(self).expects_response,
            match header {
                Some(h) => if h@.len() == 8 {
                    final(self).phase matches Phase::AwaitBody { expect } && expect == be64_val(
                        h@,
                    )
                } else {
                    final(self).phase matches Phase::Failed { error } && error
                        == JokerError::IOFailure
                },
                None => final(self).phase matches Phase::Failed { error } && error
                    == JokerError::IOFailure,
            },
    {
        match header {
            Some(h) => if h.len() == 8 {
                let expect = crate::codec::read_be64(&h);
                self.phase = Phase::AwaitBody { expect };
            } else {
                self.phase = Phase::Failed { error: JokerError::IOFailure };
            },
            None => {
                self.phase = Phase::Failed { error: JokerError::IOFailure };
            },
        }
    }

    /// The body read outcome: exactly the announced number of bytes, or
    /// nothing when the read failed. Valid UTF-8 completes the session with
    /// the decoded text; anything else fails it.
    pub fn on_body(&mut self, body: Option<Vec<u8>>)
        requires
            old(self).phase is AwaitBody,
        ensures
            final(self).expects_response == old(self).expects_response,
            match body {
                Some(b) => if b@.len() == old(self).phase->AwaitBody_expect {
                    match utf8_decoded(b@) {
                        Some(t) => final(self).phase matches Phase::Complete { text }
                            && text matches Some(s) && s@ == t,
                        None => final(self).phase matches Phase::Failed { error } && error
                            == JokerError::Utf8DecodeFailure,
                    }
                } else {
                    final(self).phase matches Phase::Failed { error } && error
                        == JokerError::IOFailure
                },
                None => final(self).phase matches Phase::Failed { error } && error
                    == JokerError::IOFailure,
            },
    {
        let expect = match &self.phase {
            Phase::AwaitBody { expect } => *expect,
            _ => 0,
        };
        match body {
            Some(b) => {
                let fits = b.len() as u64 == expect;
                if fits {
                    match decode_response_text(b) {
                        Ok(s) => {
                            self.phase = Phase::Complete { text: Some(s) };
                        },
                        Err(e) => {
                            self.phase = Phase::Failed { error: e };
                        },
                    }
                } else {
                    self.phase = Phase::Failed { error: JokerError::IOFailure };
                }
            },
            None => {
                self.phase = Phase::Failed { error: JokerError::IOFailure };
            },
        }
    }
}

} // verus!
