use vstd::prelude::*;
use crate::message::ChannelMessage;

verus! {

/// The sending end of a channel: a handle on the channel's queue.
#[derive(Debug, Clone, Copy, PartialEq, Eq, Structural)]
pub struct Sender {
    pub channel: usize,
}

/// The receiving end of a channel. There is one per channel, and it cannot be
/// copied.
#[derive(Debug, PartialEq, Eq)]
pub struct Receiver {
    pub channel: usize,
}

/// The queues of all channels: messages sent and not yet received, in the
/// order they were sent.
#[derive(Debug)]
pub struct Network {
    queues: Vec<Vec<ChannelMessage>>,
}

impl View for Network {
    type V = Seq<Seq<ChannelMessage>>;

    closed spec fn view(&self) -> Seq<Seq<ChannelMessage>> {
        Seq::new(self.queues@.len(), |i: int| self.queues@[i]@)
    }
}

/// `q` after `m` is sent on each of `senders`, first to last.
pub open spec fn deliver(
    q: Seq<Seq<ChannelMessage>>,
    senders: Seq<Sender>,
    m: ChannelMessage,
) -> Seq<Seq<ChannelMessage>>
    decreases senders.len(),
{
    if senders.len() == 0 {
        q
    } else {
        let before = deliver(q, senders.drop_last(), m);
        let c = senders.last().channel as int;
        before.update(c, before[c].push(m))
    }
}

/// `q` after each of `ms`, first to last, is sent on all of `senders`.
pub open spec fn deliver_all(
    q: Seq<Seq<ChannelMessage>>,
    senders: Seq<Sender>,
    ms: Seq<ChannelMessage>,
) -> Seq<Seq<ChannelMessage>>
    decreases ms.len(),
{
    if ms.len() == 0 {
        q
    } else {
        deliver(deliver_all(q, senders, ms.drop_last()), senders, ms.last())
    }
}

/// Every sender names a channel below `n`.
pub open spec fn senders_within(senders: Seq<Sender>, n: nat) -> bool {
    forall|i: int| 0 <= i < senders.len() ==> (#[trigger] senders[i]).channel < n
}

pub proof fn lemma_deliver_len(q: Seq<Seq<ChannelMessage>>, senders: Seq<Sender>, m: ChannelMessage)
    requires
        senders_within(senders, q.len()),
    ensures
        deliver(q, senders, m).len() == q.len(),
    decreases senders.len(),
{
    if senders.len() > 0 {
        lemma_deliver_len(q, senders.drop_last(), m);
    }
}

pub proof fn lemma_deliver_all_len(
    q: Seq<Seq<ChannelMessage>>,
    senders: Seq<Sender>,
    ms: Seq<ChannelMessage>,
)
    requires
        senders_within(senders, q.len()),
    ensures
        deliver_all(q, senders, ms).len() == q.len(),
    decreases ms.len(),
{
    if ms.len() > 0 {
        lemma_deliver_all_len(q, senders, ms.drop_last());
        lemma_deliver_len(deliver_all(q, senders, ms.drop_last()), senders, ms.last());
    }
}

/// Sending `a` and then `b` is sending `a + b`.
pub proof fn lemma_deliver_all_concat(
    q: Seq<Seq<ChannelMessage>>,
    senders: Seq<Sender>,
    a: Seq<ChannelMessage>,
    b: Seq<ChannelMessage>,
)
    ensures
        deliver_all(deliver_all(q, senders, a), senders, b) == deliver_all(q, senders, a + b),
    decreases b.len(),
{
    if b.len() == 0 {
        assert(a + b =~= a);
    } else {
        lemma_deliver_all_concat(q, senders, a, b.drop_last());
        assert((a + b).drop_last() =~= a + b.drop_last());
        assert((a + b).last() == b.last());
    }
}

impl Network {
    /// A network with no channels.
    pub fn new() -> (r: Network)
        ensures
            r@ == Seq::<Seq<ChannelMessage>>::empty(),
    {
        let r = Network { queues: Vec::new() };
        assert(r@ =~= Seq::<Seq<ChannelMessage>>::empty());
        r
    }

    /// Number of channels.
    pub fn channel_count(&self) -> (r: usize)
        ensures
            r == self@.len(),
    {
        self.queues.len()
    }

    /// Number of messages waiting on `channel`.
    pub fn queued(&self, channel: usize) -> (r: usize)
        requires
            channel < self@.len(),
        ensures
            r == self@[channel as int].len(),
    {
        self.queues[channel].len()
    }

    /// Opens a new, empty channel and hands out both of its ends.
    pub fn open_channel(&mut self) -> (r: (Sender, Receiver))
        requires
            old(self)@.len() < usize::MAX,
        ensures
            final(self)@ == old(self)@.push(Seq::<ChannelMessage>::empty()),
            r.0.channel == old(self)@.len(),
            r.1.channel == old(self)@.len(),
    {
        let channel = self.queues.len();
        self.queues.push(Vec::new());
        assert(self@ =~= old(self)@.push(Seq::<ChannelMessage>::empty()));
        (Sender { channel }, Receiver { channel })
    }

    /// Appends `message` to the queue of `tx`'s channel.
    pub fn send(&mut self, tx: &Sender, message: ChannelMessage)
        requires
            tx.channel < old(self)@.len(),
        ensures
            final(self)@ == old(self)@.update(
                tx.channel as int,
                old(self)@[tx.channel as int].push(message),
            ),
    {
        let c = tx.channel;
        self.queues[c].push(message);
        assert(self@ =~= old(self)@.update(c as int, old(self)@[c as int].push(message)));
    }

    /// Sends `message` on each of `senders`, first to last.
    pub fn send_each(&mut self, senders: &Vec<Sender>, message: ChannelMessage)
        requires
            senders_within(senders@, old(self)@.len()),
        ensures
            final(self)@ == deliver(old(self)@, senders@, message),
    {
        let mut i: usize = 0;
        while i < senders.len()
            invariant
                i <= senders@.len(),
                senders_within(senders@, old(self)@.len()),
                self@ == deliver(old(self)@, senders@.subrange(0, i as int), message),
                self@.len() == old(self)@.len(),
            decreases senders@.len() - i,
        {
            self.send(&senders[i], message);
            proof {
                let next = senders@.subrange(0, i + 1);
                assert(next.drop_last() =~= senders@.subrange(0, i as int));
                assert(next.last() == senders@[i as int]);
            }
            i += 1;
        }
        assert(senders@.subrange(0, senders@.len() as int) =~= senders@);
    }

    /// Takes every message waiting on `rx`'s channel, in the order sent.
    pub fn receive_all(&mut self, rx: &Receiver) -> (r: Vec<ChannelMessage>)
        requires
            rx.channel < old(self)@.len(),
        ensures
            r@ == old(self)@[rx.channel as int],
            final(self)@ == old(self)@.update(rx.channel as int, Seq::<ChannelMessage>::empty()),
    {
        let c = rx.channel;
        let mut taken: Vec<ChannelMessage> = Vec::new();
        std::mem::swap(&mut self.queues[c], &mut taken);
        assert(self@ =~= old(self)@.update(c as int, Seq::<ChannelMessage>::empty()));
        taken
    }
}

} // verus!
