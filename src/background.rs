use vstd::prelude::*;
use crate::draw::{Draw, Image};
use crate::exchange::{Exchange, MessageExchange};
use crate::layout::Layout;
use crate::message::ChannelMessage;
use crate::network::Network;
use crate::rect::Rect;
use crate::wiring::ChannelWiring;

verus! {

/// The window's backdrop. It reacts to no message.
#[derive(Debug)]
pub struct Background {
    exchange: Exchange,
}

impl Background {
    pub closed spec fn spec_exchange(&self) -> Exchange {
        self.exchange
    }

    /// The backdrop, on the links wired for `id`.
    pub fn new(wiring: &mut ChannelWiring, id: usize) -> (r: Self)
        requires
            old(wiring).wf(),
        ensures
            final(wiring).wf(),
            final(wiring).queues().len() == old(wiring).queues().len(),
            final(wiring).links() == old(wiring).links().remove(id),
            final(wiring).receivers() == old(wiring).receivers().remove(id),
            final(wiring).transports() == old(wiring).transports(),
            r.spec_exchange().within(old(wiring).queues().len()),
            r.spec_exchange().outbound() == old(wiring).outbound_of(id),
            r.spec_exchange().inbound() == old(wiring).inbound_of(id),
            r.spec_exchange().buffered() == Seq::<ChannelMessage>::empty(),
    {
        Self { exchange: Exchange::new_from_wiring(wiring, id) }
    }

    /// Receives and discards what is waiting; returns how many messages.
    pub fn pull(&mut self, net: &mut Network) -> (count: usize)
        requires
            old(self).spec_exchange().within(old(net)@.len()),
        ensures
            final(net)@ == old(self).spec_exchange().drained(old(net)@),
            count == old(self).spec_exchange().received(old(net)@).len() - old(self).spec_exchange().buffered().len(),
            final(self).spec_exchange().outbound() == old(self).spec_exchange().outbound(),
            final(self).spec_exchange().inbound() == old(self).spec_exchange().inbound(),
            final(self).spec_exchange().buffered() == Seq::<ChannelMessage>::empty(),
    {
        let count = self.exchange.pull(net);
        let _ = self.exchange.get_messages();
        count
    }

    /// The tier's backdrop over the whole window.
    pub fn render(&self, layout: &Layout) -> (r: Draw)
        ensures
            r == (Draw {
                image: Image::Background(layout.options.level),
                dst: Rect { x: 0, y: 0, width: layout.constants.width, height: layout.constants.height },
            }),
    {
        let rect = Rect::new(0, 0, layout.width(), layout.height());
        Draw { image: Image::Background(layout.options.level), dst: rect }
    }
}

impl MessageExchange for Background {
    open spec fn links_within(&self, n: nat) -> bool {
        self.spec_exchange().within(n)
    }

    fn pull(&mut self, net: &mut Network) -> (count: usize) {
        Background::pull(self, net)
    }
}

impl crate::exchange::Sprite for Background {
}

} // verus!
