use vstd::prelude::*;
use crate::background::Background;
use crate::button::{Button, ButtonState};
use crate::draw::Draw;
use crate::exchange::Exchange;
use crate::flagcounter::{flag_run, flag_sent, FlagCounter};
use crate::grid::{saturated, Grid};
use crate::layout::Layout;
use crate::message::{ChannelMessage, Error};
use crate::network::{deliver_all, Network, Sender};
use crate::timecounter::{recorded_after_all, runs_after_all, TimeCounter};
use crate::wiring::ChannelWiring;

verus! {

/// Identity of the game itself in the routing registry.
pub const GAME: usize = 0;
/// Identity of the front end that feeds the game its input.
pub const FRONT_END: usize = 1;
pub const BACKGROUND: usize = 2;
pub const TIME_COUNTER: usize = 3;
pub const FLAG_COUNTER: usize = 4;
pub const BUTTON: usize = 5;
pub const GRID: usize = 6;

/// The messages of `ms` that the game forwards to every component: the
/// input from the mouse.
pub open spec fn forwarded(ms: Seq<ChannelMessage>) -> Seq<ChannelMessage>
    decreases ms.len(),
{
    if ms.len() == 0 {
        Seq::empty()
    } else {
        forwarded(ms.drop_last()) + if ms.last() is MouseEvent {
            seq![ms.last()]
        } else {
            Seq::<ChannelMessage>::empty()
        }
    }
}

/// One session: every component, wired together, and the network they share.
pub struct Game {
    layout: Layout,
    background: Background,
    time_counter: TimeCounter,
    flag_counter: FlagCounter,
    button: Button,
    grid: Grid,
    sender: Sender,
    exchange: Exchange,
    network: Network,
}

impl Game {
    pub closed spec fn spec_layout(&self) -> Layout {
        self.layout
    }

    pub closed spec fn spec_grid(&self) -> Grid {
        self.grid
    }

    pub closed spec fn spec_button(&self) -> Button {
        self.button
    }

    pub closed spec fn spec_flag_counter(&self) -> FlagCounter {
        self.flag_counter
    }

    pub closed spec fn spec_time_counter(&self) -> TimeCounter {
        self.time_counter
    }

    pub closed spec fn spec_network(&self) -> Seq<Seq<ChannelMessage>> {
        self.network@
    }

    pub closed spec fn spec_exchange(&self) -> Exchange {
        self.exchange
    }

    pub closed spec fn spec_background(&self) -> Background {
        self.background
    }

    pub closed spec fn spec_sender(&self) -> Sender {
        self.sender
    }

    /// Every component's links name channels of the network.
    pub closed spec fn wf(&self) -> bool {
        let n = self.network@.len();
        &&& self.layout.wf()
        &&& self.grid.wf(n)
        &&& self.grid.spec_layout() == self.layout
        &&& self.flag_counter.spec_layout() == self.layout
        &&& self.background.spec_exchange().within(n)
        &&& self.time_counter.spec_exchange().within(n)
        &&& self.time_counter.consistent()
        &&& self.flag_counter.spec_exchange().within(n)
        &&& self.button.spec_exchange().within(n)
        &&& self.exchange.within(n)
        &&& self.sender.channel < n
        &&& self.exchange.inbound() == Some(self.sender.channel)
        &&& self.background.spec_exchange().buffered() == Seq::<ChannelMessage>::empty()
        &&& self.time_counter.spec_exchange().buffered() == Seq::<ChannelMessage>::empty()
        &&& self.flag_counter.spec_exchange().buffered() == Seq::<ChannelMessage>::empty()
        &&& self.button.spec_exchange().buffered() == Seq::<ChannelMessage>::empty()
        &&& self.exchange.buffered() == Seq::<ChannelMessage>::empty()
    }

    /// Nothing waits on the channel of any component.
    pub closed spec fn at_rest(&self) -> bool {
        let q = self.network@;
        &&& self.exchange.idle(q)
        &&& self.background.spec_exchange().idle(q)
        &&& self.time_counter.spec_exchange().idle(q)
        &&& self.flag_counter.spec_exchange().idle(q)
        &&& self.button.spec_exchange().idle(q)
        &&& self.grid.at_rest(q)
    }

    /// How one tick took the game from `self` to `after`, receiving `count`
    /// messages in all: the game forwards the mouse input it received to its
    /// outbound links; then the backdrop, the elapsed-time counter, the flag
    /// counter, the status indicator and the grid each receive what waits
    /// for them and react, each as its own `pull` says, in that order.
    pub open spec fn ticked(&self, after: Game, count: usize) -> bool {
        let q0 = self.spec_network();
        let gx = self.spec_exchange();
        let ms = gx.received(q0);
        let q1 = deliver_all(gx.drained(q0), gx.outbound(), forwarded(ms));
        let bgx = self.spec_background().spec_exchange();
        let q2 = bgx.drained(q1);
        let tc = self.spec_time_counter();
        let tcx = tc.spec_exchange();
        let q3 = tcx.drained(q2);
        let fc = self.spec_flag_counter();
        let fcx = fc.spec_exchange();
        let q4 = deliver_all(
            fcx.drained(q3),
            fcx.outbound(),
            flag_sent(fc.spec_flags(), fc.budget(), fcx.received(q3)),
        );
        let b = self.spec_button();
        let bx = b.spec_exchange();
        let q5 = deliver_all(bx.drained(q4), bx.outbound(), b@.sent(bx.received(q4), b.spec_bounding_box()));
        &&& after.spec_time_counter().spec_running() == runs_after_all(tc.spec_running(), tcx.received(q2))
        &&& (recorded_after_all(Some(tc.spec_elapsed()), tcx.received(q2)) matches Some(v)
            ==> after.spec_time_counter().spec_elapsed() == v)
        &&& after.spec_flag_counter().spec_flags() == flag_run(fc.spec_flags(), fc.budget(), fcx.received(q3))
        &&& after.spec_button()@ == b@.run(bx.received(q4), b.spec_bounding_box())
        &&& exists|cg: usize| #[trigger] self.spec_grid().pulled(q5, after.spec_grid(), after.spec_network(), cg)
            && count == saturated(
            ms.len() + bgx.received(q1).len() + tcx.received(q2).len() + fcx.received(q3).len()
                + bx.received(q4).len() + cg as nat,
        )
        &&& after.spec_layout() == self.spec_layout()
        &&& after.spec_grid().wf(after.spec_network().len())
    }

    /// A run of ticks: `trace[i]` went to `trace[i + 1]` receiving
    /// `counts[i]` messages; every tick but the last received something; the
    /// run came to rest exactly when its last tick received nothing, and
    /// otherwise used all `max_ticks` ticks.
    pub open spec fn settled_by(trace: Seq<Game>, counts: Seq<usize>, max_ticks: usize, quiet: bool) -> bool {
        &&& trace.len() == counts.len() + 1
        &&& counts.len() <= max_ticks
        &&& forall|i: int| 0 <= i < counts.len() ==> #[trigger] trace[i].ticked(trace[i + 1], counts[i])
        &&& forall|i: int| 0 <= i < counts.len() - 1 ==> #[trigger] counts[i] > 0
        &&& quiet <==> (counts.len() > 0 && counts.last() == 0)
        &&& !quiet ==> counts.len() == max_ticks
    }

    /// A session on `layout`: the registry wires each producer to its
    /// consumers, then every component takes its links.
    pub fn new(layout: Layout) -> (r: Game)
        requires
            layout.wf(),
        ensures
            r.wf(),
            r.spec_grid().wf(r.spec_network().len()),
            r.spec_network().len() == 6 + layout.options.tile_count(),
            // channels open in wiring order: button 0, flag counter 1, time
            // counter 2, grid 3, background 4, game 5, then the cells
            r.spec_button().spec_exchange().inbound() == Some(0usize),
            r.spec_flag_counter().spec_exchange().inbound() == Some(1usize),
            r.spec_time_counter().spec_exchange().inbound() == Some(2usize),
            r.spec_grid().spec_exchange().inbound() == Some(3usize),
            r.spec_background().spec_exchange().inbound() == Some(4usize),
            r.spec_exchange().inbound() == Some(5usize),
            r.spec_sender().channel == 5,
            r.spec_grid().first_channel() == 6,
            // who sends to whom
            r.spec_exchange().outbound() == seq![
                Sender { channel: 4 },
                Sender { channel: 2 },
                Sender { channel: 1 },
                Sender { channel: 0 },
                Sender { channel: 3 },
            ],
            r.spec_button().spec_exchange().outbound() == seq![
                Sender { channel: 2 },
                Sender { channel: 1 },
                Sender { channel: 3 },
            ],
            r.spec_flag_counter().spec_exchange().outbound() == seq![Sender { channel: 3 }],
            r.spec_grid().listeners() == seq![Sender { channel: 0 }, Sender { channel: 1 }],
            r.spec_time_counter().spec_exchange().outbound() == Seq::<Sender>::empty(),
            r.spec_background().spec_exchange().outbound() == Seq::<Sender>::empty(),
            r.spec_layout() == layout,
            r.spec_button()@.game_state == crate::message::GameState::Init,
            r.spec_flag_counter().spec_flags() == layout.options.mines,
    {
        let mut channels = ChannelWiring::new();
        channels.wire(GRID, BUTTON);
        channels.wire(GRID, FLAG_COUNTER);
        channels.wire(BUTTON, TIME_COUNTER);
        channels.wire(BUTTON, FLAG_COUNTER);
        channels.wire(BUTTON, GRID);
        channels.wire(FLAG_COUNTER, GRID);
        channels.wire(GAME, BACKGROUND);
        channels.wire(GAME, TIME_COUNTER);
        channels.wire(GAME, FLAG_COUNTER);
        channels.wire(GAME, BUTTON);
        channels.wire(GAME, GRID);
        channels.wire(FRONT_END, GAME);
        let ghost front = channels.outbound_of(FRONT_END);
        assert(front.len() == 1);
        assert(channels.queues().len() == 6);
        assert(channels.outbound_of(GAME) =~= seq![
            Sender { channel: 4 },
            Sender { channel: 2 },
            Sender { channel: 1 },
            Sender { channel: 0 },
            Sender { channel: 3 },
        ]);
        assert(channels.outbound_of(BUTTON) =~= seq![Sender { channel: 2 }, Sender { channel: 1 }, Sender { channel: 3 }]);
        assert(channels.outbound_of(FLAG_COUNTER) =~= seq![Sender { channel: 3 }]);
        assert(channels.outbound_of(GRID) =~= seq![Sender { channel: 0 }, Sender { channel: 1 }]);
        assert(channels.outbound_of(BACKGROUND) =~= Seq::<Sender>::empty());
        assert(channels.outbound_of(TIME_COUNTER) =~= Seq::<Sender>::empty());
        assert(channels.inbound_of(BUTTON) == Some(0usize));
        assert(channels.inbound_of(FLAG_COUNTER) == Some(1usize));
        assert(channels.inbound_of(TIME_COUNTER) == Some(2usize));
        assert(channels.inbound_of(GRID) == Some(3usize));
        assert(channels.inbound_of(BACKGROUND) == Some(4usize));
        assert(channels.inbound_of(GAME) == Some(5usize));
        assert(front[0].channel == 5);
        let background = Background::new(&mut channels, BACKGROUND);
        let time_counter = TimeCounter::new(&mut channels, TIME_COUNTER);
        let flag_counter = FlagCounter::new(layout, &mut channels, FLAG_COUNTER);
        let button = Button::new(layout, &mut channels, BUTTON);
        assert(channels.outbound_of(FRONT_END) == front);
        let grid = Grid::new(layout, &mut channels, GRID);
        assert(channels.outbound_of(FRONT_END) == front);
        // the front end was wired to the game alone, so it has one link
        let (senders, _) = channels.channels(FRONT_END);
        let sender = match senders {
            Some(v) => {
                let mut v = v;
                match v.pop() {
                    Some(s) => s,
                    None => {
                        assert(false);
                        Sender { channel: 0 }
                    },
                }
            },
            None => {
                assert(false);
                Sender { channel: 0 }
            },
        };
        let exchange = Exchange::new_from_wiring(&mut channels, GAME);
        let network = channels.into_network();
        Game {
            layout,
            background,
            time_counter,
            flag_counter,
            button,
            grid,
            sender,
            exchange,
            network,
        }
    }

    /// The sender on the game's own channel, for the front end.
    pub fn get_sender(&self) -> (r: Sender)
        requires
            self.wf(),
        ensures
            r == self.spec_sender(),
            self.spec_exchange().inbound() == Some(r.channel),
            r.channel < self.spec_network().len(),
    {
        self.sender
    }

    /// Sends `message` on `sender`'s channel; false, and nothing sent, when
    /// this session has no such channel.
    pub fn send(&mut self, sender: &Sender, message: ChannelMessage) -> (sent: bool)
        requires
            old(self).wf(),
        ensures
            final(self).wf(),
            sent == (sender.channel < old(self).spec_network().len()),
            sent ==> final(self).spec_network() == old(self).spec_network().update(
                sender.channel as int,
                old(self).spec_network()[sender.channel as int].push(message),
            ),
            !sent ==> final(self).spec_network() == old(self).spec_network(),
            final(self).spec_layout() == old(self).spec_layout(),
            final(self).spec_exchange() == old(self).spec_exchange(),
            final(self).spec_background() == old(self).spec_background(),
            final(self).spec_time_counter() == old(self).spec_time_counter(),
            final(self).spec_flag_counter() == old(self).spec_flag_counter(),
            final(self).spec_button() == old(self).spec_button(),
            final(self).spec_grid() == old(self).spec_grid(),
            final(self).spec_sender() == old(self).spec_sender(),
            final(self).spec_grid().wf(final(self).spec_network().len()),
    {
        if sender.channel < self.network.channel_count() {
            self.network.send(sender, message);
            true
        } else {
            false
        }
    }

    /// One tick: the game forwards the input it received to every
    /// component, then each component, in a fixed order, receives what waits
    /// for it and reacts. Returns how many messages were received in all; a
    /// tick that receives nothing leaves every channel as it was.
    #[verifier::rlimit(100)]
    pub fn pull(&mut self) -> (count: usize)
        requires
            old(self).wf(),
        ensures
            final(self).wf(),
            final(self).spec_layout() == old(self).spec_layout(),
            count == 0 ==> final(self).spec_network() == old(self).spec_network(),
            count == 0 ==> old(self).at_rest() && final(self).at_rest(),
            old(self).at_rest() ==> count == 0,
            old(self).ticked(*final(self), count),
    {
        let ghost n = self.network@.len();
        let ghost q0 = self.network@;
        let mut count = self.exchange.pull(&mut self.network);
        proof {
            if count == 0 {
                crate::exchange::lemma_nothing_received(old(self).exchange, q0);
            }
        }
        proof {
            if old(self).at_rest() {
                crate::exchange::lemma_idle(old(self).exchange, q0);
            }
        }
        let messages = self.exchange.get_messages();
        proof {
            assert(messages@ =~= old(self).exchange.received(q0));
            assert(forwarded(messages@.take(0)) =~= Seq::<ChannelMessage>::empty());
        }
        let mut k: usize = 0;
        while k < messages.len()
            invariant
                self.wf(),
                self.network@.len() == n,
                self.layout == old(self).layout,
                count == 0 ==> messages@.len() == 0 && self.network@ == q0,
                k <= messages@.len(),
                count == messages@.len(),
                messages@ == old(self).exchange.received(q0),
                self.exchange.outbound() == old(self).exchange.outbound(),
                self.network@ == deliver_all(
                    old(self).exchange.drained(q0),
                    old(self).exchange.outbound(),
                    forwarded(messages@.take(k as int)),
                ),
                self.background == old(self).background,
                self.time_counter == old(self).time_counter,
                self.flag_counter == old(self).flag_counter,
                self.button == old(self).button,
                self.grid == old(self).grid,
                self.exchange.inbound() == old(self).exchange.inbound(),
            decreases messages@.len() - k,
        {
            match messages[k] {
                ChannelMessage::MouseEvent(_) => self.exchange.push_message(&mut self.network, messages[k]),
                _ => {},
            }
            proof {
                let t = messages@.take(k + 1);
                assert(t.drop_last() =~= messages@.take(k as int));
                assert(t.last() == messages@[k as int]);
                let prev = forwarded(messages@.take(k as int));
                if messages@[k as int] is MouseEvent {
                    assert(forwarded(t) =~= prev.push(messages@[k as int]));
                    assert(prev.push(messages@[k as int]).drop_last() =~= prev);
                } else {
                    assert(forwarded(t) =~= prev);
                }
            }
            k += 1;
        }
        proof {
            assert(messages@.take(messages@.len() as int) =~= messages@);
        }
        let ghost q = self.network@;
        let ghost q1 = q;
        let ghost ex = self.background.spec_exchange();
        proof {
            if old(self).at_rest() {
                assert(q == q0);
                crate::exchange::lemma_idle(ex, q);
            }
        }
        let c1 = self.background.pull(&mut self.network);
        count = count.saturating_add(c1);
        proof {
            assert(c1 == ex.received(q).len());
            if count == 0 {
                crate::exchange::lemma_nothing_received(ex, q);
                assert(q == q0);
                assert(ex.idle(q0));
            }
        }
        let ghost q = self.network@;
        let ghost q2 = q;
        let ghost ex = self.time_counter.spec_exchange();
        proof {
            if old(self).at_rest() {
                assert(q == q0);
                crate::exchange::lemma_idle(ex, q);
            }
        }
        let c2 = self.time_counter.pull(&mut self.network);
        count = count.saturating_add(c2);
        proof {
            assert(c2 == ex.received(q).len());
            if count == 0 {
                crate::exchange::lemma_nothing_received(ex, q);
                assert(q == q0);
                assert(ex.idle(q0));
            }
        }
        let ghost q = self.network@;
        let ghost q3 = q;
        let ghost ex = self.flag_counter.spec_exchange();
        proof {
            if old(self).at_rest() {
                assert(q == q0);
                crate::exchange::lemma_idle(ex, q);
            }
        }
        let c3 = self.flag_counter.pull(&mut self.network);
        count = count.saturating_add(c3);
        proof {
            assert(c3 == ex.received(q).len());
            if count == 0 {
                crate::exchange::lemma_nothing_received(ex, q);
                assert(q == q0);
                assert(ex.idle(q0));
                assert(self.network@ =~= q);
            }
        }
        let ghost q = self.network@;
        let ghost q4 = q;
        let ghost ex = self.button.spec_exchange();
        proof {
            if old(self).at_rest() {
                assert(q == q0);
                crate::exchange::lemma_idle(ex, q);
            }
        }
        let c4 = self.button.pull(&mut self.network);
        count = count.saturating_add(c4);
        proof {
            assert(c4 == ex.received(q).len());
            if count == 0 {
                crate::exchange::lemma_nothing_received(ex, q);
                assert(q == q0);
                assert(ex.idle(q0));
                assert(self.network@ =~= q);
            }
        }
        let ghost q = self.network@;
        let ghost g = self.grid;
        proof {
            if old(self).at_rest() {
                assert(q == q0);
            }
        }
        let cg = self.grid.pull(&mut self.network);
        count = count.saturating_add(cg);
        proof {
            assert(g.pulled(q, self.grid, self.network@, cg));
            assert(count == saturated((messages@.len() + c1 + c2 + c3 + c4 + cg) as nat));
            let gx = old(self).exchange;
            let q1s = deliver_all(gx.drained(q0), gx.outbound(), forwarded(gx.received(q0)));
            assert(q1 == q1s);
            assert(c1 == old(self).background.spec_exchange().received(q1).len());
            assert(c2 == old(self).time_counter.spec_exchange().received(q2).len());
            assert(c3 == old(self).flag_counter.spec_exchange().received(q3).len());
            assert(c4 == old(self).button.spec_exchange().received(q4).len());
            let b = old(self).spec_button();
            let bx = b.spec_exchange();
            let fc = old(self).spec_flag_counter();
            let fcx = fc.spec_exchange();
            let q4s = deliver_all(
                fcx.drained(q3),
                fcx.outbound(),
                flag_sent(fc.spec_flags(), fc.budget(), fcx.received(q3)),
            );
            assert(q4 == q4s);
            let q5s = deliver_all(bx.drained(q4s), bx.outbound(), b@.sent(bx.received(q4s), b.spec_bounding_box()));
            assert(q == q5s);
            assert(old(self).spec_grid().pulled(q5s, self.spec_grid(), self.spec_network(), cg));
            assert(count == saturated(
                gx.received(q0).len() + old(self).spec_background().spec_exchange().received(q1s).len()
                    + old(self).spec_time_counter().spec_exchange().received(q2).len() + fcx.received(q3).len()
                    + bx.received(q4s).len() + cg as nat,
            ));
            if count == 0 {
                assert(q == q0);
                assert(g.at_rest(q0));
                assert(self.network@ == q0);
            }
        }
        count
    }

    /// Pulls until a tick receives nothing, for at most `max_ticks` ticks.
    /// Returns whether the session came to rest.
    pub fn settle(&mut self, max_ticks: usize) -> (quiet: bool)
        requires
            old(self).wf(),
        ensures
            final(self).wf(),
            final(self).spec_layout() == old(self).spec_layout(),
            final(self).spec_grid().wf(final(self).spec_network().len()),
            quiet ==> final(self).at_rest(),
            max_ticks > 0 && old(self).at_rest() ==> quiet,
            exists|trace: Seq<Game>, counts: Seq<usize>| #[trigger] Game::settled_by(trace, counts, max_ticks, quiet)
                && trace[0] == *old(self) && trace.last() == *final(self),
    {
        let ghost mut trace: Seq<Game> = seq![*self];
        let ghost mut counts: Seq<usize> = Seq::empty();
        let mut tick: usize = 0;
        while tick < max_ticks
            invariant
                self.wf(),
                self.spec_layout() == old(self).spec_layout(),
                self.spec_grid().wf(self.spec_network().len()),
                tick == 0 && old(self).at_rest() ==> self.at_rest(),
                old(self).at_rest() ==> tick == 0,
                tick <= max_ticks,
                trace.len() == tick + 1,
                counts.len() == tick,
                trace[0] == *old(self),
                trace.last() == *self,
                forall|i: int| 0 <= i < counts.len() ==> #[trigger] trace[i].ticked(trace[i + 1], counts[i]),
                forall|i: int| 0 <= i < counts.len() ==> #[trigger] counts[i] > 0,
            decreases max_ticks - tick,
        {
            let ghost before = *self;
            let c = self.pull();
            proof {
                let t2 = trace.push(*self);
                let c2 = counts.push(c);
                assert forall|i: int| 0 <= i < c2.len() implies #[trigger] t2[i].ticked(t2[i + 1], c2[i]) by {
                    if i < counts.len() {
                        assert(t2[i] == trace[i] && t2[i + 1] == trace[i + 1] && c2[i] == counts[i]);
                    } else {
                        assert(t2[i] == before);
                    }
                }
                trace = t2;
                counts = c2;
            }
            if c == 0 {
                proof {
                    assert(Game::settled_by(trace, counts, max_ticks, true));
                }
                return true;
            }
            tick += 1;
        }
        proof {
            assert(Game::settled_by(trace, counts, max_ticks, false));
        }
        false
    }

    /// Everything to draw, back to front: the backdrop, the elapsed-time
    /// panel, the flag panel, the status indicator, then every cell. Fails
    /// when the clock reads earlier than the round's start.
    pub fn render(&self) -> (r: Result<Vec<Draw>, Error>)
        requires
            self.wf(),
        ensures
            r is Ok ==> r->Ok_0@.len() == 10 + self.spec_grid().spec_tiles().len(),
            r is Ok ==> r->Ok_0@[9] == self.spec_button().render_spec(),
            r is Ok ==> r->Ok_0@.subrange(5, 9) == self.spec_flag_counter().render_spec(),
            r is Ok ==> r->Ok_0@[0] == (Draw {
                image: crate::draw::Image::Background(self.spec_layout().options.level),
                dst: crate::rect::Rect {
                    x: 0,
                    y: 0,
                    width: self.spec_layout().constants.width,
                    height: self.spec_layout().constants.height,
                },
            }),
            r is Ok ==> forall|i: int| 0 <= i < self.spec_grid().spec_tiles().len() ==> #[trigger] r->Ok_0@[10 + i] == (Draw {
                image: crate::draw::Image::Tile(self.spec_grid().spec_tiles()[i]@.image()),
                dst: self.spec_grid().spec_tiles()[i].spec_bounding_box(),
            }),
            r is Ok ==> exists|s: u64| r->Ok_0@.subrange(1, 5) == #[trigger] crate::timecounter::timer_draws(self.spec_layout(), s as nat),
            !self.spec_time_counter().spec_running() && !self.spec_time_counter().spec_clock_failed() ==> r is Ok
                && r->Ok_0@.subrange(1, 5) == crate::timecounter::timer_draws(
                self.spec_layout(),
                self.spec_time_counter().spec_elapsed() as nat,
            ),
            r is Err ==> r->Err_0 == Error::StartTimeInvalid,
    {
        let mut draws: Vec<Draw> = Vec::new();
        draws.push(self.background.render(&self.layout));
        match self.time_counter.render(&self.layout) {
            Ok(mut d) => {
                let ghost timer = d@;
                draws.append(&mut d);
                assert(draws@.subrange(1, 5) =~= timer);
            },
            Err(e) => {
                return Err(e);
            },
        }
        let mut flags = self.flag_counter.render();
        draws.append(&mut flags);
        draws.push(self.button.render());
        let mut cells = self.grid.render();
        draws.append(&mut cells);
        Ok(draws)
    }

    pub fn layout(&self) -> (r: Layout)
        ensures
            r == self.spec_layout(),
    {
        self.layout
    }

    /// The board.
    pub fn grid(&self) -> (r: &Grid)
        ensures
            *r == self.spec_grid(),
    {
        &self.grid
    }

    /// The state of the round and the count of revealed blank cells.
    pub fn status(&self) -> (r: ButtonState)
        ensures
            r == self.spec_button()@,
    {
        self.button.state()
    }

    /// Flags that remain of the budget.
    pub fn flags(&self) -> (r: i16)
        ensures
            r == self.spec_flag_counter().spec_flags(),
    {
        self.flag_counter.flags()
    }

    /// Whether the elapsed-time counter runs.
    pub fn timer_running(&self) -> (r: bool)
        ensures
            r == self.spec_time_counter().spec_running(),
    {
        self.time_counter.is_running()
    }

    /// Number of messages sent and not yet received, over all channels
    /// (saturating at `usize::MAX`).
    pub fn in_flight(&self) -> (r: usize)
        ensures
            r == 0 <==> forall|c: int| 0 <= c < self.spec_network().len() ==> #[trigger] self.spec_network()[c].len() == 0,
    {
        let mut total: usize = 0;
        let mut c: usize = 0;
        while c < self.network.channel_count()
            invariant
                c <= self.network@.len(),
                total == 0 <==> forall|k: int| 0 <= k < c ==> #[trigger] self.network@[k].len() == 0,
            decreases self.network@.len() - c,
        {
            total = total.saturating_add(self.network.queued(c));
            c += 1;
        }
        assert(self.spec_network() == self.network@);
        total
    }
}

/// Input waiting on the game's own channel is received by the next tick,
/// which then counts at least one message.
pub proof fn lemma_input_is_received(g: Game, after: Game, count: usize)
    requires
        g.wf(),
        g.ticked(after, count),
        g.spec_network()[g.spec_sender().channel as int].len() > 0,
    ensures
        count >= 1,
{
    let q0 = g.spec_network();
    let gx = g.spec_exchange();
    assert(gx.received(q0).len() >= 1);
}

} // verus!
