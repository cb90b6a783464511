//! The relay of changes to the runtime process: one change out, one reply
//! back, never two relays in flight on one connection.
use vstd::prelude::*;
use crate::protocol::{change_json, ResourceChange};

verus! {

/// What came back from the runtime process for a relayed change.
#[derive(Clone, Debug)]
pub enum RelayOutcome {
    /// A text reply.
    Reply(String),
    /// A frame that is not text.
    NonText,
    /// Sending or receiving failed, or the connection ended.
    TransportError,
}

/// Pairs each relayed change with the one reply that follows it.
#[derive(Debug)]
pub struct DownstreamBridge {
    awaiting: bool,
}

impl DownstreamBridge {
    /// A relay is in flight: its reply has not come back yet.
    pub closed spec fn is_awaiting(&self) -> bool {
        self.awaiting
    }

    /// A bridge with nothing in flight.
    pub fn new() -> (r: Self)
        ensures
            !r.is_awaiting(),
    {
        DownstreamBridge { awaiting: false }
    }

    /// Starts relaying `change`: the text to send, or none while another
    /// relay is in flight.
    pub fn begin_relay(&mut self, change: &ResourceChange) -> (r: Option<String>)
        ensures
            old(self).is_awaiting() ==> r is None && final(self).is_awaiting(),
            !old(self).is_awaiting() ==> final(self).is_awaiting() && (r matches Some(t) && t@ == change_json(
                change.resource_name@,
                change.change_type,
                change.file_path@,
            )),
    {
        if self.awaiting {
            return None;
        }
        self.awaiting = true;
        Some(change.to_json())
    }

    /// Ends the relay in flight: the reply to queue for the client, if the
    /// runtime process answered with text; otherwise the notification is lost.
    pub fn finish_relay(&mut self, outcome: RelayOutcome) -> (r: Option<String>)
        ensures
            !final(self).is_awaiting(),
            match r {
                Some(t) => old(self).is_awaiting() && (outcome matches RelayOutcome::Reply(s) && t@ == s@),
                None => !old(self).is_awaiting() || !(outcome is Reply),
            },
    {
        let was = self.awaiting;
        self.awaiting = false;
        if !was {
            return None;
        }
        match outcome {
            RelayOutcome::Reply(s) => Some(s),
            _ => None,
        }
    }
}

} // verus!
