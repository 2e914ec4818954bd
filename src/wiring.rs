use vstd::prelude::*;
use std::collections::HashMap;
use crate::network::{senders_within, Network, Receiver, Sender};

verus! {

broadcast use vstd::std_specs::hash::group_hash_axioms;

/// The routing registry. Components are named by integer identities; wiring
/// a producer to a consumer gives the producer a sender on the consumer's
/// channel, opening that channel the first time the consumer is wired.
#[derive(Debug)]
pub struct TheChannelWiring {
    /// The queues of every channel opened so far.
    network: Network,
    /// The sending end of each consumer's channel.
    channel_senders: HashMap<usize, Sender>,
    /// The receiving end of each consumer's channel, until it is taken.
    channel_receivers: HashMap<usize, Receiver>,
    /// The outbound links of each producer, until they are taken.
    senders: HashMap<usize, Vec<Sender>>,
}

pub type ChannelWiring = TheChannelWiring;

impl TheChannelWiring {
    /// The queues of every channel opened so far.
    pub closed spec fn queues(&self) -> Seq<Seq<crate::message::ChannelMessage>> {
        self.network@
    }

    /// The channel that each wired consumer receives on.
    pub closed spec fn transports(&self) -> Map<usize, usize> {
        self.channel_senders@.map_values(|tx: Sender| tx.channel)
    }

    /// The receiving ends not yet taken, by consumer.
    pub closed spec fn receivers(&self) -> Map<usize, usize> {
        self.channel_receivers@.map_values(|rx: Receiver| rx.channel)
    }

    /// The outbound links not yet taken, by producer.
    pub closed spec fn links(&self) -> Map<usize, Seq<Sender>> {
        self.senders@.map_values(|v: Vec<Sender>| v@)
    }

    pub open spec fn outbound_of(&self, id: usize) -> Seq<Sender> {
        if self.links().contains_key(id) {
            self.links()[id]
        } else {
            Seq::empty()
        }
    }

    pub open spec fn inbound_of(&self, id: usize) -> Option<usize> {
        if self.receivers().contains_key(id) {
            Some(self.receivers()[id])
        } else {
            None
        }
    }

    /// Every link names an open channel, and a consumer's receiving end
    /// belongs to its own channel.
    pub open spec fn wf(&self) -> bool {
        &&& forall|id: usize| #[trigger] self.transports().contains_key(id)
            ==> self.transports()[id] < self.queues().len()
        &&& forall|id: usize| #[trigger] self.receivers().contains_key(id)
            ==> self.transports().contains_key(id) && self.receivers()[id] == self.transports()[id]
        &&& forall|id: usize| #[trigger] self.links().contains_key(id)
            ==> senders_within(self.links()[id], self.queues().len())
    }

    /// A registry with nothing wired.
    pub fn new() -> (r: Self)
        ensures
            r.wf(),
            r.queues().len() == 0,
            r.transports() == Map::<usize, usize>::empty(),
            r.receivers() == Map::<usize, usize>::empty(),
            r.links() == Map::<usize, Seq<Sender>>::empty(),
    {
        let r = TheChannelWiring {
            network: Network::new(),
            channel_senders: HashMap::new(),
            channel_receivers: HashMap::new(),
            senders: HashMap::new(),
        };
        assert(r.transports() =~= Map::<usize, usize>::empty());
        assert(r.receivers() =~= Map::<usize, usize>::empty());
        assert(r.links() =~= Map::<usize, Seq<Sender>>::empty());
        r
    }

    /// Wires `producer` to `consumer`: the producer's outbound links gain a
    /// sender on the consumer's channel, which is opened if the consumer has
    /// none yet.
    pub fn wire(&mut self, producer: usize, consumer: usize)
        requires
            old(self).wf(),
            old(self).queues().len() < usize::MAX,
        ensures
            final(self).wf(),
            old(self).transports().contains_key(consumer) ==> {
                &&& final(self).queues() == old(self).queues()
                &&& final(self).transports() == old(self).transports()
                &&& final(self).receivers() == old(self).receivers()
            },
            !old(self).transports().contains_key(consumer) ==> {
                &&& final(self).queues() == old(self).queues().push(Seq::empty())
                &&& final(self).transports() == old(self).transports().insert(
                    consumer,
                    old(self).queues().len() as usize,
                )
                &&& final(self).receivers() == old(self).receivers().insert(
                    consumer,
                    old(self).queues().len() as usize,
                )
            },
            final(self).transports().contains_key(consumer),
            final(self).links() == old(self).links().insert(
                producer,
                old(self).outbound_of(producer).push(
                    Sender { channel: final(self).transports()[consumer] },
                ),
            ),
    {
        let tx = self.get_or_create_sender(consumer);
        self.wire_channel(producer, tx);
    }

    /// Takes the outbound links and the receiving end of `id`. What is taken
    /// is gone: a second call for the same identity finds neither.
    pub fn channels(&mut self, id: usize) -> (r: (Option<Vec<Sender>>, Option<Receiver>))
        requires
            old(self).wf(),
        ensures
            final(self).wf(),
            final(self).queues() == old(self).queues(),
            final(self).transports() == old(self).transports(),
            final(self).links() == old(self).links().remove(id),
            final(self).receivers() == old(self).receivers().remove(id),
            match r.0 {
                Some(v) => old(self).links().contains_key(id) && v@ == old(self).links()[id],
                None => !old(self).links().contains_key(id),
            },
            match r.1 {
                Some(rx) => old(self).inbound_of(id) == Some(rx.channel),
                None => old(self).inbound_of(id) == None::<usize>,
            },
    {
        let senders = self.extract_senders(id);
        let receiver = self.extract_receiver(id);
        (senders, receiver)
    }

    /// Opens a channel outside the registry's bookkeeping, for a component
    /// that wires its own parts.
    pub fn open_channel(&mut self) -> (r: (Sender, Receiver))
        requires
            old(self).wf(),
            old(self).queues().len() < usize::MAX,
        ensures
            final(self).wf(),
            final(self).queues() == old(self).queues().push(Seq::empty()),
            final(self).transports() == old(self).transports(),
            final(self).receivers() == old(self).receivers(),
            final(self).links() == old(self).links(),
            r.0.channel == old(self).queues().len(),
            r.1.channel == old(self).queues().len(),
    {
        let r = self.network.open_channel();
        proof {
            self.lemma_wf_grows(*old(self));
        }
        r
    }

    /// Hands over the network, once everything is wired.
    pub fn into_network(self) -> (r: Network)
        ensures
            r@ == self.queues(),
    {
        self.network
    }

    /// Well-formedness survives growing the network, dropping receivers and
    /// dropping outbound lists.
    proof fn lemma_wf_grows(&self, before: Self)
        requires
            before.wf(),
            self.queues().len() >= before.queues().len(),
            self.transports() == before.transports(),
            forall|id: usize| #[trigger] self.receivers().contains_key(id)
                ==> before.receivers().contains_key(id) && self.receivers()[id] == before.receivers()[id],
            forall|id: usize| #[trigger] self.links().contains_key(id)
                ==> before.links().contains_key(id) && self.links()[id] == before.links()[id],
        ensures
            self.wf(),
    {
        assert forall|id: usize| #[trigger] self.transports().contains_key(id)
            implies self.transports()[id] < self.queues().len() by {
            assert(before.transports().contains_key(id));
        }
        assert forall|id: usize| #[trigger] self.receivers().contains_key(id)
            implies self.transports().contains_key(id) && self.receivers()[id] == self.transports()[id] by {
            assert(before.receivers().contains_key(id));
        }
        assert forall|id: usize| #[trigger] self.links().contains_key(id)
            implies senders_within(self.links()[id], self.queues().len()) by {
            assert(before.links().contains_key(id));
            assert(senders_within(before.links()[id], before.queues().len()));
        }
    }

    fn wire_channel(&mut self, producer: usize, tx: Sender)
        requires
            old(self).wf(),
            tx.channel < old(self).queues().len(),
        ensures
            final(self).wf(),
            final(self).queues() == old(self).queues(),
            final(self).transports() == old(self).transports(),
            final(self).receivers() == old(self).receivers(),
            final(self).links() == old(self).links().insert(
                producer,
                old(self).outbound_of(producer).push(tx),
            ),
    {
        let list = match self.senders.remove(&producer) {
            Some(v) => {
                let mut v = v;
                v.push(tx);
                v
            },
            None => vec![tx],
        };
        self.senders.insert(producer, list);
        proof {
            let n = self.queues().len();
            assert(self.senders@ =~= old(self).senders@.insert(producer, list));
            assert(list@ == old(self).outbound_of(producer).push(tx));
            assert forall|id: usize| #[trigger] self.transports().contains_key(id)
                implies self.transports()[id] < n by {
                assert(old(self).transports().contains_key(id));
            }
            assert forall|id: usize| #[trigger] self.receivers().contains_key(id)
                implies self.transports().contains_key(id) && self.receivers()[id] == self.transports()[id] by {
                assert(old(self).receivers().contains_key(id));
            }
            assert(self.links() =~= old(self).links().insert(producer, old(self).outbound_of(producer).push(tx)));
            assert forall|id: usize| #[trigger] self.links().contains_key(id)
                implies senders_within(self.links()[id], n) by {
                if id != producer {
                    assert(old(self).links().contains_key(id));
                    assert(senders_within(old(self).links()[id], n));
                } else {
                    let s = old(self).outbound_of(producer);
                    if old(self).links().contains_key(producer) {
                        assert(senders_within(old(self).links()[producer], n));
                    }
                    assert(senders_within(s, n));
                    assert(self.links()[id] == s.push(tx));
                }
            }
        }
    }

    /// The sender on `consumer`'s channel, opening the channel if needed.
    fn get_or_create_sender(&mut self, consumer: usize) -> (r: Sender)
        requires
            old(self).wf(),
            old(self).queues().len() < usize::MAX,
        ensures
            final(self).wf(),
            final(self).links() == old(self).links(),
            final(self).transports().contains_key(consumer),
            r.channel == final(self).transports()[consumer],
            r.channel < final(self).queues().len(),
            old(self).transports().contains_key(consumer) ==> {
                &&& final(self).queues() == old(self).queues()
                &&& final(self).transports() == old(self).transports()
                &&& final(self).receivers() == old(self).receivers()
            },
            !old(self).transports().contains_key(consumer) ==> {
                &&& final(self).queues() == old(self).queues().push(Seq::empty())
                &&& final(self).transports() == old(self).transports().insert(
                    consumer,
                    old(self).queues().len() as usize,
                )
                &&& final(self).receivers() == old(self).receivers().insert(
                    consumer,
                    old(self).queues().len() as usize,
                )
            },
    {
        match self.channel_senders.get(&consumer) {
            Some(tx) => {
                assert(self.transports().contains_key(consumer));
                *tx
            },
            None => self.create_channel(consumer),
        }
    }

    /// Opens the channel of `consumer` and returns its sending end.
    fn create_channel(&mut self, consumer: usize) -> (r: Sender)
        requires
            old(self).wf(),
            !old(self).transports().contains_key(consumer),
            old(self).queues().len() < usize::MAX,
        ensures
            final(self).wf(),
            final(self).links() == old(self).links(),
            final(self).queues() == old(self).queues().push(Seq::empty()),
            r.channel == old(self).queues().len(),
            final(self).transports() == old(self).transports().insert(consumer, r.channel),
            final(self).receivers() == old(self).receivers().insert(consumer, r.channel),
    {
        let (tx, rx) = self.network.open_channel();
        self.channel_senders.insert(consumer, tx);
        self.channel_receivers.insert(consumer, rx);
        proof {
            assert(self.transports() =~= old(self).transports().insert(consumer, tx.channel));
            assert(self.receivers() =~= old(self).receivers().insert(consumer, tx.channel));
            assert(self.links() =~= old(self).links());
            assert forall|id: usize| #[trigger] self.links().contains_key(id)
                implies senders_within(self.links()[id], self.queues().len()) by {
                assert(senders_within(old(self).links()[id], old(self).queues().len()));
            }
        }
        tx
    }

    fn extract_senders(&mut self, id: usize) -> (r: Option<Vec<Sender>>)
        requires
            old(self).wf(),
        ensures
            final(self).wf(),
            final(self).queues() == old(self).queues(),
            final(self).transports() == old(self).transports(),
            final(self).receivers() == old(self).receivers(),
            final(self).links() == old(self).links().remove(id),
            match r {
                Some(v) => old(self).links().contains_key(id) && v@ == old(self).links()[id],
                None => !old(self).links().contains_key(id),
            },
    {
        let r = self.senders.remove(&id);
        proof {
            assert(self.links() =~= old(self).links().remove(id));
            self.lemma_wf_grows(*old(self));
        }
        r
    }

    fn extract_receiver(&mut self, id: usize) -> (r: Option<Receiver>)
        requires
            old(self).wf(),
        ensures
            final(self).wf(),
            final(self).queues() == old(self).queues(),
            final(self).transports() == old(self).transports(),
            final(self).links() == old(self).links(),
            final(self).receivers() == old(self).receivers().remove(id),
            match r {
                Some(rx) => old(self).inbound_of(id) == Some(rx.channel),
                None => old(self).inbound_of(id) == None::<usize>,
            },
    {
        let r = self.channel_receivers.remove(&id);
        proof {
            assert(self.receivers() =~= old(self).receivers().remove(id));
            self.lemma_wf_grows(*old(self));
        }
        r
    }
}

} // verus!
