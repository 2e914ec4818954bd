use vstd::prelude::*;
use crate::draw::{Draw, FaceImage, Image};
use crate::exchange::{Exchange, MessageExchange};
use crate::layout::Layout;
use crate::message::{ChannelMessage, GameState, MouseButton};
use crate::network::{deliver_all, Network};
use crate::rect::Rect;
use crate::wiring::ChannelWiring;

verus! {

/// What the status indicator tracks: the round's state and how many blank
/// cells were revealed of the `blanks` the board has.
#[derive(Debug, Clone, Copy, PartialEq, Eq, Structural)]
pub struct ButtonState {
    pub game_state: GameState,
    pub revealed: i16,
    pub blanks: i16,
}

impl ButtonState {
    /// The reaction to `m` of an indicator drawn in `bounding_box`: the new
    /// state and the state changes it broadcasts, in order.
    ///
    /// A revealed mine loses the round at once. A revealed blank cell starts
    /// the round if it had not started, and wins it when the count of
    /// revealed blank cells reaches `blanks`. A left click on the indicator
    /// starts a new round.
    pub open spec fn next(self, m: ChannelMessage, bounding_box: Rect) -> (ButtonState, Seq<ChannelMessage>) {
        match m {
            ChannelMessage::Revealed(true, _) => (
                ButtonState { game_state: GameState::Lose, ..self },
                seq![ChannelMessage::GameStateChanged(GameState::Lose)],
            ),
            ChannelMessage::Revealed(false, _) => {
                let started = self.game_state == GameState::Init;
                let s1 = if started { ButtonState { game_state: GameState::Playing, ..self } } else { self };
                let out1 = if started {
                    seq![ChannelMessage::GameStateChanged(GameState::Playing)]
                } else {
                    Seq::empty()
                };
                let count = if s1.revealed < i16::MAX { (s1.revealed + 1) as i16 } else { s1.revealed };
                let s2 = ButtonState { revealed: count, ..s1 };
                if count == self.blanks {
                    (
                        ButtonState { game_state: GameState::Win, ..s2 },
                        out1.push(ChannelMessage::GameStateChanged(GameState::Win)),
                    )
                } else {
                    (s2, out1)
                }
            },
            ChannelMessage::MouseEvent(event) => {
                if bounding_box.holds(event.x as int, event.y as int) && event.mouse_btn == MouseButton::Left {
                    (
                        ButtonState { revealed: 0, game_state: GameState::Init, ..self },
                        seq![ChannelMessage::GameStateChanged(GameState::Init)],
                    )
                } else {
                    (self, Seq::empty())
                }
            },
            _ => (self, Seq::empty()),
        }
    }

    pub open spec fn run(self, ms: Seq<ChannelMessage>, bounding_box: Rect) -> ButtonState
        decreases ms.len(),
    {
        if ms.len() == 0 {
            self
        } else {
            self.run(ms.drop_last(), bounding_box).next(ms.last(), bounding_box).0
        }
    }

    pub open spec fn sent(self, ms: Seq<ChannelMessage>, bounding_box: Rect) -> Seq<ChannelMessage>
        decreases ms.len(),
    {
        if ms.len() == 0 {
            Seq::empty()
        } else {
            self.sent(ms.drop_last(), bounding_box) + self.run(ms.drop_last(), bounding_box).next(
                ms.last(),
                bounding_box,
            ).1
        }
    }

    pub open spec fn face(self) -> FaceImage {
        match self.game_state {
            GameState::Init | GameState::Playing => FaceImage::Playing,
            GameState::Win => FaceImage::Win,
            GameState::Lose => FaceImage::Lose,
        }
    }
}

/// The status indicator: derives the round's state from the cells'
/// messages and broadcasts every change of it.
#[derive(Debug)]
pub struct Button {
    state: ButtonState,
    bounding_box: Rect,
    exchange: Exchange,
}

impl View for Button {
    type V = ButtonState;

    closed spec fn view(&self) -> ButtonState {
        self.state
    }
}

impl Button {
    pub closed spec fn spec_bounding_box(&self) -> Rect {
        self.bounding_box
    }

    pub closed spec fn spec_exchange(&self) -> Exchange {
        self.exchange
    }

    /// An indicator for a new round, on the links wired for `id`.
    pub fn new(layout: Layout, wiring: &mut ChannelWiring, id: usize) -> (r: Self)
        requires
            layout.wf(),
            old(wiring).wf(),
        ensures
            final(wiring).wf(),
            final(wiring).queues().len() == old(wiring).queues().len(),
            final(wiring).links() == old(wiring).links().remove(id),
            final(wiring).receivers() == old(wiring).receivers().remove(id),
            final(wiring).transports() == old(wiring).transports(),
            r@ == (ButtonState {
                game_state: GameState::Init,
                revealed: 0,
                blanks: (layout.options.tile_count() - layout.options.mines) as i16,
            }),
            r.spec_bounding_box() == layout.spec_face(),
            r.spec_exchange().within(old(wiring).queues().len()),
            r.spec_exchange().outbound() == old(wiring).outbound_of(id),
            r.spec_exchange().inbound() == old(wiring).inbound_of(id),
            r.spec_exchange().buffered() == Seq::<ChannelMessage>::empty(),
    {
        Self {
            state: ButtonState {
                game_state: GameState::Init,
                revealed: 0,
                blanks: layout.options.blanks(),
            },
            bounding_box: layout.face(),
            exchange: Exchange::new_from_wiring(wiring, id),
        }
    }

    pub open spec fn render_spec(&self) -> Draw {
        Draw { image: Image::Face(self@.face()), dst: self.spec_bounding_box() }
    }

    pub fn state(&self) -> (r: ButtonState)
        ensures
            r == self@,
    {
        self.state
    }

    pub fn game_state(&self) -> (r: GameState)
        ensures
            r == self@.game_state,
    {
        self.state.game_state
    }

    pub fn revealed(&self) -> (r: i16)
        ensures
            r == self@.revealed,
    {
        self.state.revealed
    }

    fn update_game_state(&mut self, new_state: GameState, out: &mut Vec<ChannelMessage>)
        ensures
            final(self)@ == (ButtonState { game_state: new_state, ..old(self)@ }),
            final(out)@ == old(out)@.push(ChannelMessage::GameStateChanged(new_state)),
            final(self).spec_bounding_box() == old(self).spec_bounding_box(),
            final(self).spec_exchange() == old(self).spec_exchange(),
    {
        self.state.game_state = new_state;
        out.push(ChannelMessage::GameStateChanged(new_state));
    }

    /// Handles one message; returns the state changes to broadcast.
    pub fn react(&mut self, message: ChannelMessage) -> (r: Vec<ChannelMessage>)
        ensures
            (final(self)@, r@) == old(self)@.next(message, old(self).spec_bounding_box()),
            final(self).spec_bounding_box() == old(self).spec_bounding_box(),
            final(self).spec_exchange() == old(self).spec_exchange(),
    {
        let mut out: Vec<ChannelMessage> = Vec::new();
        match message {
            ChannelMessage::Revealed(true, _) => self.update_game_state(GameState::Lose, &mut out),
            ChannelMessage::Revealed(false, _) => {
                if self.state.game_state == GameState::Init {
                    self.update_game_state(GameState::Playing, &mut out);
                }
                if self.state.revealed < i16::MAX {
                    self.state.revealed = self.state.revealed + 1;
                }
                if self.state.revealed == self.state.blanks {
                    self.update_game_state(GameState::Win, &mut out);
                }
            },
            ChannelMessage::MouseEvent(event) => {
                if self.bounding_box.contains_point((event.x, event.y)) {
                    if event.mouse_btn == MouseButton::Left {
                        self.state.revealed = 0;
                        self.update_game_state(GameState::Init, &mut out);
                    }
                }
            },
            _ => {},
        }
        assert(out@ =~= old(self)@.next(message, old(self).spec_bounding_box()).1);
        out
    }

    /// Receives what is waiting and reacts to each message in turn,
    /// broadcasting what each gives; returns how many messages were received.
    pub fn pull(&mut self, net: &mut Network) -> (count: usize)
        requires
            old(self).spec_exchange().within(old(net)@.len()),
        ensures
            final(net)@.len() == old(net)@.len(),
            final(self)@ == old(self)@.run(old(self).spec_exchange().received(old(net)@), old(self).spec_bounding_box()),
            final(net)@ == deliver_all(
                old(self).spec_exchange().drained(old(net)@),
                old(self).spec_exchange().outbound(),
                old(self)@.sent(old(self).spec_exchange().received(old(net)@), old(self).spec_bounding_box()),
            ),
            count == old(self).spec_exchange().received(old(net)@).len() - old(self).spec_exchange().buffered().len(),
            final(self).spec_bounding_box() == old(self).spec_bounding_box(),
            final(self).spec_exchange().outbound() == old(self).spec_exchange().outbound(),
            final(self).spec_exchange().inbound() == old(self).spec_exchange().inbound(),
            final(self).spec_exchange().buffered() == Seq::<ChannelMessage>::empty(),
    {
        let ghost ex0 = self.exchange;
        let ghost bb = self.bounding_box;
        let count = self.exchange.pull(net);
        let messages = self.exchange.get_messages();
        let ghost ms = messages@;
        assert(ms =~= ex0.received(old(net)@));
        let ghost s0 = self.state;
        let ghost q0 = net@;
        let mut i: usize = 0;
        while i < messages.len()
            invariant
                i <= ms.len(),
                messages@ == ms,
                self.bounding_box == bb,
                self.exchange.outbound() == ex0.outbound(),
                self.exchange.inbound() == ex0.inbound(),
                self.exchange.buffered() == Seq::<ChannelMessage>::empty(),
                self.exchange.within(q0.len()),
                net@.len() == q0.len(),
                self.state == s0.run(ms.take(i as int), bb),
                net@ == deliver_all(q0, ex0.outbound(), s0.sent(ms.take(i as int), bb)),
            decreases ms.len() - i,
        {
            let out = self.react(messages[i]);
            self.exchange.push_messages(net, &out);
            proof {
                let t = ms.take(i + 1);
                assert(t.drop_last() =~= ms.take(i as int));
                crate::network::lemma_deliver_all_concat(q0, ex0.outbound(), s0.sent(ms.take(i as int), bb), out@);
            }
            i += 1;
        }
        assert(ms.take(ms.len() as int) =~= ms);
        count
    }

    /// The face: playing before and during a round, then won or lost.
    pub fn render(&self) -> (r: Draw)
        ensures
            r == (Draw { image: Image::Face(self@.face()), dst: self.spec_bounding_box() }),
    {
        let face = match self.state.game_state {
            GameState::Init => FaceImage::Playing,
            GameState::Playing => FaceImage::Playing,
            GameState::Win => FaceImage::Win,
            GameState::Lose => FaceImage::Lose,
        };
        Draw { image: Image::Face(face), dst: self.bounding_box }
    }
}

impl MessageExchange for Button {
    open spec fn links_within(&self, n: nat) -> bool {
        self.spec_exchange().within(n)
    }

    fn pull(&mut self, net: &mut Network) -> (count: usize) {
        Button::pull(self, net)
    }
}

/// A revealed mine loses the round at once, whatever remains hidden. A
/// revealed blank cell adds one to the count of revealed blank cells, and
/// the round is declared won exactly when that count reaches the number of
/// blank cells.
pub proof fn lemma_win_and_loss(s: ButtonState, has_adjacent_mines: bool, bounding_box: Rect)
    requires
        s.revealed < i16::MAX,
    ensures
        s.next(ChannelMessage::Revealed(true, has_adjacent_mines), bounding_box) == (
            ButtonState { game_state: GameState::Lose, ..s },
            seq![ChannelMessage::GameStateChanged(GameState::Lose)],
        ),
        ({
            let (t, out) = s.next(ChannelMessage::Revealed(false, has_adjacent_mines), bounding_box);
            &&& t.revealed == s.revealed + 1
            &&& out.contains(ChannelMessage::GameStateChanged(GameState::Win)) <==> s.revealed + 1 == s.blanks
            &&& s.revealed + 1 == s.blanks ==> t.game_state == GameState::Win
        }),
{
    let (t, out) = s.next(ChannelMessage::Revealed(false, has_adjacent_mines), bounding_box);
    if s.revealed + 1 == s.blanks {
        assert(out.last() == ChannelMessage::GameStateChanged(GameState::Win));
        assert(out.contains(out[out.len() - 1]));
    } else {
        if s.game_state == GameState::Init {
            assert(out =~= seq![ChannelMessage::GameStateChanged(GameState::Playing)]);
        } else {
            assert(out =~= Seq::<ChannelMessage>::empty());
        }
    }
}

impl crate::exchange::Sprite for Button {
}

} // verus!
