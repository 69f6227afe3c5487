//! The electronic-mail push event sink.
//!
//! The transport itself lives outside this core; the sink records each push
//! event it has accepted for hand-off, so a delivery is observable.

use vstd::prelude::*;
use crate::push_events::{PushEvent, PushEventView, PushEventSink, PushEventsSinkError};

verus! {

/// Sink that hands composed push events to the mail transport for the
/// configured recipients.
#[derive(Debug)]
pub struct PushEventEmailSink {
    recipients: Vec<String>,
    deliveries: Vec<PushEvent>,
}

impl PushEventEmailSink {
    /// The configured recipient addresses.
    pub closed spec fn recipients_view(&self) -> Seq<Seq<char>> {
        self.recipients.deep_view()
    }

    /// The push events handed off so far, oldest first.
    pub fn deliveries(&self) -> (r: &Vec<PushEvent>)
        ensures
            r.deep_view() == self.delivered(),
    {
        &self.deliveries
    }
}

/// Builds the sink for the given recipient list, with nothing delivered yet.
pub fn new_push_events_email_sink(recipients: Vec<String>) -> (r: PushEventEmailSink)
    ensures
        r.delivered() == Seq::<PushEventView>::empty(),
        r.recipients_view() == recipients.deep_view(),
{
    let r = PushEventEmailSink { recipients, deliveries: Vec::new() };
    proof {
        assert(r.delivered() =~= Seq::<PushEventView>::empty());
    }
    r
}

impl PushEventSink for PushEventEmailSink {
    closed spec fn delivered(&self) -> Seq<PushEventView> {
        self.deliveries.deep_view()
    }

    open spec fn refusals(&self) -> nat {
        0
    }

    /// Hand-off to the mail transport always succeeds in this model; what
    /// success means is hand-off, not read-receipt confirmation.
    fn send_push_event(&mut self, push_event: PushEvent) -> (r: Result<(), PushEventsSinkError>)
        ensures
            r is Ok,
            final(self).recipients_view() == old(self).recipients_view(),
    {
        let ghost before = self.deliveries.deep_view();
        let ghost pev = push_event.deep_view();
        self.deliveries.push(push_event);
        proof {
            assert(self.deliveries.deep_view() =~= before.push(pev));
        }
        Ok(())
    }
}

} // verus!
