use vstd::prelude::*;
use crate::message::ChannelMessage;
use crate::network::{deliver, deliver_all, lemma_deliver_len, senders_within, Network, Receiver, Sender};
use crate::wiring::ChannelWiring;

verus! {

/// A component's mailbox: where it sends (its outbound links), where it
/// receives (its inbound link, if any) and what it received and has not yet
/// handled.
#[derive(Debug)]
pub struct Exchange {
    messages: Vec<ChannelMessage>,
    senders: Vec<Sender>,
    receiver: Option<Receiver>,
}

/// The capability shared by every component: drain the mailbox and react.
pub trait MessageExchange {
    /// Whether every link of the component names one of the first `n` channels.
    spec fn links_within(&self, n: nat) -> bool;

    /// Receives what is waiting, reacts, and returns how many messages were
    /// received.
    fn pull(&mut self, net: &mut Network) -> (count: usize)
        requires
            old(self).links_within(old(net)@.len()),
        ensures
            final(self).links_within(final(net)@.len()),
            final(net)@.len() == old(net)@.len(),
    ;
}

/// A component of the game: something with a mailbox that the driver pulls.
pub trait Sprite: MessageExchange {
}

impl Exchange {
    pub closed spec fn outbound(&self) -> Seq<Sender> {
        self.senders@
    }

    pub closed spec fn inbound(&self) -> Option<usize> {
        match self.receiver {
            Some(rx) => Some(rx.channel),
            None => None,
        }
    }

    pub closed spec fn buffered(&self) -> Seq<ChannelMessage> {
        self.messages@
    }

    /// What the mailbox handles on its next pull: what it buffered, then
    /// what waits on its channel.
    pub open spec fn received(&self, q: Seq<Seq<ChannelMessage>>) -> Seq<ChannelMessage> {
        self.buffered() + match self.inbound() {
            Some(c) => q[c as int],
            None => Seq::empty(),
        }
    }

    /// The queues once the mailbox has received what waits on its channel.
    pub open spec fn drained(&self, q: Seq<Seq<ChannelMessage>>) -> Seq<Seq<ChannelMessage>> {
        match self.inbound() {
            Some(c) => q.update(c as int, Seq::empty()),
            None => q,
        }
    }

    /// Nothing waits on the mailbox's channel.
    pub open spec fn idle(&self, q: Seq<Seq<ChannelMessage>>) -> bool {
        self.inbound() matches Some(c) ==> q[c as int].len() == 0
    }

    pub open spec fn within(&self, n: nat) -> bool {
        &&& senders_within(self.outbound(), n)
        &&& (self.inbound() matches Some(c) ==> c < n)
    }

    /// The mailbox of component `id`, with the links wired for it.
    pub fn new_from_wiring(wiring: &mut ChannelWiring, id: usize) -> (r: Self)
        requires
            old(wiring).wf(),
        ensures
            final(wiring).wf(),
            final(wiring).queues().len() == old(wiring).queues().len(),
            final(wiring).links() == old(wiring).links().remove(id),
            final(wiring).receivers() == old(wiring).receivers().remove(id),
            final(wiring).transports() == old(wiring).transports(),
            r.within(old(wiring).queues().len()),
            r.buffered() == Seq::<ChannelMessage>::empty(),
            r.outbound() == old(wiring).outbound_of(id),
            r.inbound() == old(wiring).inbound_of(id),
    {
        let (senders, receiver) = wiring.channels(id);
        let senders = match senders {
            Some(s) => s,
            None => Vec::new(),
        };
        Exchange::new(senders, receiver)
    }

    pub fn new(senders: Vec<Sender>, receiver: Option<Receiver>) -> (r: Self)
        ensures
            r.outbound() == senders@,
            r.inbound() == (match receiver {
                Some(rx) => Some(rx.channel),
                None => None::<usize>,
            }),
            r.buffered() == Seq::<ChannelMessage>::empty(),
    {
        Self { messages: Vec::new(), senders, receiver }
    }

    /// Sends a copy of `message` on every outbound link.
    pub fn push_message(&self, net: &mut Network, message: ChannelMessage)
        requires
            self.within(old(net)@.len()),
        ensures
            final(net)@ == deliver(old(net)@, self.outbound(), message),
            final(net)@.len() == old(net)@.len(),
    {
        net.send_each(&self.senders, message);
        proof {
            lemma_deliver_len(old(net)@, self.outbound(), message);
        }
    }

    /// Sends each of `messages`, first to last, on every outbound link.
    pub fn push_messages(&self, net: &mut Network, messages: &Vec<ChannelMessage>)
        requires
            self.within(old(net)@.len()),
        ensures
            final(net)@ == deliver_all(old(net)@, self.outbound(), messages@),
            final(net)@.len() == old(net)@.len(),
    {
        let mut i: usize = 0;
        while i < messages.len()
            invariant
                i <= messages@.len(),
                self.within(old(net)@.len()),
                net@.len() == old(net)@.len(),
                net@ == deliver_all(old(net)@, self.outbound(), messages@.subrange(0, i as int)),
            decreases messages@.len() - i,
        {
            self.push_message(net, messages[i]);
            proof {
                let next = messages@.subrange(0, i + 1);
                assert(next.drop_last() =~= messages@.subrange(0, i as int));
            }
            i += 1;
        }
        assert(messages@.subrange(0, messages@.len() as int) =~= messages@);
    }

    /// Sends `message` on the outbound link at `index` only.
    pub fn push_message_to_index(&self, net: &mut Network, message: ChannelMessage, index: usize)
        requires
            self.within(old(net)@.len()),
            index < self.outbound().len(),
        ensures
            final(net)@ == old(net)@.update(
                self.outbound()[index as int].channel as int,
                old(net)@[self.outbound()[index as int].channel as int].push(message),
            ),
    {
        net.send(&self.senders[index], message);
    }

    /// A copy of the outbound links.
    pub fn clone_senders(&self) -> (r: Vec<Sender>)
        ensures
            r@ == self.outbound(),
    {
        let mut r: Vec<Sender> = Vec::new();
        let mut i: usize = 0;
        while i < self.senders.len()
            invariant
                i <= self.senders@.len(),
                r@ == self.senders@.subrange(0, i as int),
            decreases self.senders@.len() - i,
        {
            r.push(self.senders[i]);
            assert(r@ =~= self.senders@.subrange(0, i + 1));
            i += 1;
        }
        assert(r@ =~= self.senders@);
        r
    }

    /// Hands over the received messages and empties the buffer.
    pub fn get_messages(&mut self) -> (r: Vec<ChannelMessage>)
        ensures
            r@ == old(self).buffered(),
            final(self).buffered() == Seq::<ChannelMessage>::empty(),
            final(self).outbound() == old(self).outbound(),
            final(self).inbound() == old(self).inbound(),
    {
        let mut messages: Vec<ChannelMessage> = Vec::new();
        std::mem::swap(&mut self.messages, &mut messages);
        messages
    }

    /// Exchanges the outbound links with `senders`.
    pub fn replace_senders(&mut self, senders: &mut Vec<Sender>)
        ensures
            final(self).outbound() == old(senders)@,
            final(senders)@ == old(self).outbound(),
            final(self).inbound() == old(self).inbound(),
            final(self).buffered() == old(self).buffered(),
    {
        std::mem::swap(&mut self.senders, senders);
    }

    /// Receives everything waiting on the inbound link into the buffer, and
    /// returns how many messages that was.
    pub fn pull(&mut self, net: &mut Network) -> (count: usize)
        requires
            old(self).within(old(net)@.len()),
        ensures
            final(self).outbound() == old(self).outbound(),
            final(self).inbound() == old(self).inbound(),
            final(net)@.len() == old(net)@.len(),
            match old(self).inbound() {
                Some(c) => {
                    &&& count == old(net)@[c as int].len()
                    &&& final(self).buffered() == old(self).buffered() + old(net)@[c as int]
                    &&& final(net)@ == old(net)@.update(c as int, Seq::<ChannelMessage>::empty())
                },
                None => {
                    &&& count == 0
                    &&& final(self).buffered() == old(self).buffered()
                    &&& final(net)@ == old(net)@
                },
            },
    {
        match &self.receiver {
            Some(rx) => {
                let mut received = net.receive_all(rx);
                let count = received.len();
                self.messages.append(&mut received);
                count
            },
            None => 0,
        }
    }

    /// Broadcasts every buffered message, first to last, and empties the buffer.
    pub fn push(&mut self, net: &mut Network)
        requires
            old(self).within(old(net)@.len()),
        ensures
            final(net)@ == deliver_all(old(net)@, old(self).outbound(), old(self).buffered()),
            final(self).buffered() == Seq::<ChannelMessage>::empty(),
            final(self).outbound() == old(self).outbound(),
            final(self).inbound() == old(self).inbound(),
    {
        let messages = self.get_messages();
        self.push_messages(net, &messages);
    }
}

/// A mailbox with nothing buffered that receives nothing leaves the queues
/// as they were.
pub proof fn lemma_nothing_received(ex: Exchange, q: Seq<Seq<ChannelMessage>>)
    requires
        ex.buffered() == Seq::<ChannelMessage>::empty(),
        ex.received(q).len() == 0,
        ex.within(q.len()),
    ensures
        ex.drained(q) == q,
        ex.received(q) == Seq::<ChannelMessage>::empty(),
        ex.idle(q),
{
    if let Some(c) = ex.inbound() {
        assert(q[c as int].len() == 0);
        assert(q.update(c as int, Seq::empty()) =~= q);
    }
    assert(ex.received(q) =~= Seq::<ChannelMessage>::empty());
}

/// A mailbox with nothing buffered whose channel is empty receives nothing
/// and leaves the queues as they were.
pub proof fn lemma_idle(ex: Exchange, q: Seq<Seq<ChannelMessage>>)
    requires
        ex.buffered() == Seq::<ChannelMessage>::empty(),
        ex.idle(q),
        ex.within(q.len()),
    ensures
        ex.drained(q) == q,
        ex.received(q) == Seq::<ChannelMessage>::empty(),
{
    if let Some(c) = ex.inbound() {
        assert(q[c as int] =~= Seq::<ChannelMessage>::empty());
        assert(q.update(c as int, Seq::empty()) =~= q);
    }
    assert(ex.received(q) =~= Seq::<ChannelMessage>::empty());
}

} // verus!
