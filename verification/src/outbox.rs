//! Messages that are sent one after another.

use vstd::prelude::*;

verus! {

/// Messages to be sent in order. Sending stops at the first failure.
pub struct Outbox<M> {
    messages: Vec<M>,
    sent: usize,
    failed: bool,
}

impl<M> Outbox<M> {
    /// All messages, in order.
    pub closed spec fn messages(&self) -> Seq<M> {
        self.messages@
    }

    /// How many of them were sent.
    pub closed spec fn sent(&self) -> nat {
        self.sent as nat
    }

    /// The message after those could not be sent.
    pub closed spec fn failed(&self) -> bool {
        self.failed
    }

    /// No more messages were sent than there are, and only one that there is can fail.
    pub open spec fn wf(&self) -> bool {
        &&& self.sent() <= self.messages().len()
        &&& self.failed() ==> self.sent() < self.messages().len()
    }

    /// There is a message to send.
    pub open spec fn pending(&self) -> bool {
        !self.failed() && self.sent() < self.messages().len()
    }

    /// Messages of which none was sent.
    pub fn new(messages: Vec<M>) -> (outbox: Self)
        ensures
            outbox.wf(),
            outbox.messages() == messages@,
            outbox.sent() == 0,
            !outbox.failed(),
    {
        Outbox { messages, sent: 0, failed: false }
    }

    /// The message to send next: none when all were sent, and none after a failure.
    pub fn current(&self) -> (message: Option<&M>)
        requires
            self.wf(),
        ensures
            message is Some <==> self.pending(),
            message matches Some(m) ==> *m == self.messages()[self.sent() as int],
    {
        if !self.failed && self.sent < self.messages.len() {
            Some(&self.messages[self.sent])
        } else {
            None
        }
    }

    /// Takes note of whether the current message could be sent.
    pub fn report(&mut self, ok: bool)
        requires
            old(self).wf(),
            old(self).pending(),
        ensures
            final(self).wf(),
            final(self).messages() == old(self).messages(),
            final(self).sent() == if ok {
                old(self).sent() + 1
            } else {
                old(self).sent()
            },
            final(self).failed() == !ok,
    {
        if ok {
            assert(self.sent < self.messages.len());
            self.sent = self.sent + 1;
        } else {
            self.failed = true;
        }
    }

    /// Whether every message was sent.
    pub fn is_complete(&self) -> (yes: bool)
        ensures
            yes <==> !self.failed() && self.sent() == self.messages().len(),
    {
        !self.failed && self.sent == self.messages.len()
    }
}

/// Messages are pending until all were sent or one failed, and not after that.
pub proof fn law_sending_stops_at_the_first_failure<M>(outbox: Outbox<M>)
    requires
        outbox.wf(),
    ensures
        outbox.failed() ==> !outbox.pending(),
        !outbox.failed() ==> (outbox.pending() <==> outbox.sent() != outbox.messages().len()),
        outbox.sent() <= outbox.messages().len(),
{
}

/// What a call of `report` does: what was sent counts, and what failed ends the sending.
pub proof fn law_report_counts_or_ends<M>(outbox: &mut Outbox<M>, ok: bool)
    requires
        call_ensures(Outbox::<M>::report, (outbox, ok), ()),
        old(outbox).wf(),
        old(outbox).pending(),
    ensures
        final(outbox).messages() == old(outbox).messages(),
        ok ==> final(outbox).sent() == old(outbox).sent() + 1 && !final(outbox).failed(),
        !ok ==> final(outbox).sent() == old(outbox).sent() && !final(outbox).pending(),
{
}

} // verus!
