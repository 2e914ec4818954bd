use vstd::prelude::*;
use crate::draw::{Draw, Image, TileImage};
use crate::exchange::{Exchange, MessageExchange};
use crate::message::{ChannelMessage, GameState};
use crate::network::{deliver_all, Network};
use crate::rect::Rect;

verus! {

/// The state of one cell.
#[derive(Debug, Clone, Copy, PartialEq, Eq, Structural)]
pub struct TileState {
    pub is_revealed: bool,
    pub is_mine: bool,
    pub is_flagged: bool,
    /// Mines among the neighbours, as the grid last set it.
    pub adjacent_mines: u8,
    /// Flags among the neighbours, as their messages told.
    pub adjacent_flags: u8,
    /// Whether the flag budget allows another flag.
    pub flag_remaining: bool,
    pub is_game_over: bool,
}

impl TileState {
    pub open spec fn can_reveal(self) -> bool {
        !self.is_game_over && !self.is_flagged && !self.is_revealed
    }

    /// Revealing: a hidden, unflagged cell of a running round becomes
    /// revealed and says so; otherwise nothing happens.
    pub open spec fn uncover(self) -> (TileState, Option<ChannelMessage>) {
        if self.can_reveal() {
            (
                TileState { is_revealed: true, ..self },
                Some(ChannelMessage::Revealed(self.is_mine, self.adjacent_mines > 0)),
            )
        } else {
            (self, None)
        }
    }

    /// A revealed cell with as many flags around it as mines asks its
    /// neighbours to reveal themselves.
    pub open spec fn clear(self) -> Option<ChannelMessage> {
        if self.adjacent_flags == self.adjacent_mines {
            Some(ChannelMessage::Clear)
        } else {
            None
        }
    }

    /// Toggling the flag of a hidden cell of a running round; a new flag
    /// needs the budget.
    pub open spec fn toggle_flag(self) -> (TileState, Option<ChannelMessage>) {
        if self.is_game_over || self.is_revealed || (!self.is_flagged && !self.flag_remaining) {
            (self, None)
        } else {
            (
                TileState { is_flagged: !self.is_flagged, ..self },
                Some(ChannelMessage::Flagged(!self.is_flagged)),
            )
        }
    }

    /// The reaction to a change of the round's state.
    pub open spec fn game_state_changed(self, state: GameState) -> TileState {
        match state {
            GameState::Init => TileState {
                is_flagged: false,
                is_revealed: false,
                adjacent_flags: 0,
                is_game_over: false,
                flag_remaining: true,
                ..self
            },
            GameState::Win | GameState::Lose => TileState { is_game_over: true, ..self },
            GameState::Playing => self,
        }
    }

    /// The new state and what to broadcast, on `m`, for a cell drawn in
    /// `bounding_box`.
    pub open spec fn next(self, m: ChannelMessage, bounding_box: Rect) -> (TileState, Option<ChannelMessage>) {
        match m {
            ChannelMessage::FlagStateChanged(exhausted) => (TileState { flag_remaining: !exhausted, ..self }, None),
            ChannelMessage::GameStateChanged(state) => (self.game_state_changed(state), None),
            ChannelMessage::Revealed(false, false) => self.uncover(),
            ChannelMessage::Clear => self.uncover(),
            ChannelMessage::Flagged(true) => (TileState {
                adjacent_flags: if self.adjacent_flags < 255 { (self.adjacent_flags + 1) as u8 } else { 255 },
                ..self
            }, None),
            ChannelMessage::Flagged(false) => (TileState {
                adjacent_flags: if self.adjacent_flags > 0 { (self.adjacent_flags - 1) as u8 } else { 0 },
                ..self
            }, None),
            ChannelMessage::MouseEvent(event) => {
                if bounding_box.holds(event.x as int, event.y as int) {
                    match event.mouse_btn {
                        crate::message::MouseButton::Left => if self.is_revealed {
                            (self, self.clear())
                        } else {
                            self.uncover()
                        },
                        crate::message::MouseButton::Right => self.toggle_flag(),
                        crate::message::MouseButton::Middle => (self, None),
                    }
                } else {
                    (self, None)
                }
            },
            _ => (self, None),
        }
    }

    /// The state after handling each of `ms` in turn.
    pub open spec fn run(self, ms: Seq<ChannelMessage>, bounding_box: Rect) -> TileState
        decreases ms.len(),
    {
        if ms.len() == 0 {
            self
        } else {
            self.run(ms.drop_last(), bounding_box).next(ms.last(), bounding_box).0
        }
    }

    /// Everything broadcast while handling each of `ms` in turn.
    pub open spec fn sent(self, ms: Seq<ChannelMessage>, bounding_box: Rect) -> Seq<ChannelMessage>
        decreases ms.len(),
    {
        if ms.len() == 0 {
            Seq::empty()
        } else {
            let before = self.run(ms.drop_last(), bounding_box);
            let out = before.next(ms.last(), bounding_box).1;
            self.sent(ms.drop_last(), bounding_box) + match out {
                Some(o) => seq![o],
                None => Seq::empty(),
            }
        }
    }

    /// The image: a revealed mine, then a revealed count, then a flag, then
    /// a hidden cell.
    pub open spec fn image(self) -> TileImage {
        if self.is_revealed {
            if self.is_mine {
                TileImage::Mine
            } else {
                TileImage::Count(self.adjacent_mines)
            }
        } else if self.is_flagged {
            TileImage::Flagged
        } else {
            TileImage::Hidden
        }
    }
}

/// Handling messages never changes what a cell holds.
pub proof fn lemma_run_keeps_contents(s: TileState, ms: Seq<ChannelMessage>, bounding_box: Rect)
    ensures
        s.run(ms, bounding_box).is_mine == s.is_mine,
        s.run(ms, bounding_box).adjacent_mines == s.adjacent_mines,
    decreases ms.len(),
{
    if ms.len() > 0 {
        lemma_run_keeps_contents(s, ms.drop_last(), bounding_box);
    }
}

/// One cell of the board, with its own mailbox.
#[derive(Debug)]
pub struct Tile {
    state: TileState,
    bounding_box: Rect,
    exchange: Exchange,
}

impl View for Tile {
    type V = TileState;

    closed spec fn view(&self) -> TileState {
        self.state
    }
}

impl Tile {
    pub closed spec fn spec_bounding_box(&self) -> Rect {
        self.bounding_box
    }

    pub closed spec fn spec_exchange(&self) -> Exchange {
        self.exchange
    }

    /// A hidden, unflagged cell without a mine, in a running round.
    pub fn new(exchange: Exchange, bounding_box: Rect) -> (r: Tile)
        ensures
            r@ == (TileState {
                is_revealed: false,
                is_mine: false,
                is_flagged: false,
                adjacent_mines: 0,
                adjacent_flags: 0,
                flag_remaining: true,
                is_game_over: false,
            }),
            r.spec_bounding_box() == bounding_box,
            r.spec_exchange() == exchange,
    {
        Tile {
            state: TileState {
                is_revealed: false,
                is_mine: false,
                is_flagged: false,
                adjacent_mines: 0,
                adjacent_flags: 0,
                flag_remaining: true,
                is_game_over: false,
            },
            bounding_box,
            exchange,
        }
    }

    /// Sets what the cell holds: a mine or not, and the mines around it.
    pub fn reset(&mut self, is_mine: bool, adjacent_mines: u8)
        ensures
            final(self)@ == (TileState { is_mine, adjacent_mines, ..old(self)@ }),
            final(self).spec_bounding_box() == old(self).spec_bounding_box(),
            final(self).spec_exchange() == old(self).spec_exchange(),
    {
        self.state.is_mine = is_mine;
        self.state.adjacent_mines = adjacent_mines;
    }

    fn try_clear(&self) -> (r: Option<ChannelMessage>)
        ensures
            r == self@.clear(),
    {
        if self.state.adjacent_flags == self.state.adjacent_mines {
            Some(ChannelMessage::Clear)
        } else {
            None
        }
    }

    fn uncover(&mut self) -> (r: Option<ChannelMessage>)
        ensures
            (final(self)@, r) == old(self)@.uncover(),
            final(self).spec_bounding_box() == old(self).spec_bounding_box(),
            final(self).spec_exchange() == old(self).spec_exchange(),
    {
        if !self.state.is_game_over && !self.state.is_flagged && !self.state.is_revealed {
            self.state.is_revealed = true;
            let has_adjacent_mines = self.state.adjacent_mines > 0;
            Some(ChannelMessage::Revealed(self.state.is_mine, has_adjacent_mines))
        } else {
            None
        }
    }

    fn try_toggle_flag(&mut self) -> (r: Option<ChannelMessage>)
        ensures
            (final(self)@, r) == old(self)@.toggle_flag(),
            final(self).spec_bounding_box() == old(self).spec_bounding_box(),
            final(self).spec_exchange() == old(self).spec_exchange(),
    {
        if self.state.is_game_over || self.state.is_revealed {
            return None;
        }
        if !self.state.is_flagged && !self.state.flag_remaining {
            return None;
        }
        self.state.is_flagged = !self.state.is_flagged;
        Some(ChannelMessage::Flagged(self.state.is_flagged))
    }

    fn handle_game_state_changed(&mut self, state: GameState)
        ensures
            final(self)@ == old(self)@.game_state_changed(state),
            final(self).spec_bounding_box() == old(self).spec_bounding_box(),
            final(self).spec_exchange() == old(self).spec_exchange(),
    {
        match state {
            GameState::Init => {
                self.state.is_flagged = false;
                self.state.is_revealed = false;
                self.state.adjacent_flags = 0;
                self.state.is_game_over = false;
                self.state.flag_remaining = true;
            },
            GameState::Win => {
                self.state.is_game_over = true;
            },
            GameState::Lose => {
                self.state.is_game_over = true;
            },
            _ => {},
        }
    }

    /// Handles one message; returns what to broadcast, if anything.
    pub fn react(&mut self, message: ChannelMessage) -> (r: Option<ChannelMessage>)
        ensures
            (final(self)@, r) == old(self)@.next(message, old(self).spec_bounding_box()),
            final(self).spec_bounding_box() == old(self).spec_bounding_box(),
            final(self).spec_exchange() == old(self).spec_exchange(),
    {
        match message {
            ChannelMessage::FlagStateChanged(exhausted) => {
                self.state.flag_remaining = !exhausted;
                None
            },
            ChannelMessage::GameStateChanged(state) => {
                self.handle_game_state_changed(state);
                None
            },
            ChannelMessage::Revealed(false, false) => self.uncover(),
            ChannelMessage::Clear => self.uncover(),
            ChannelMessage::Flagged(true) => {
                self.state.adjacent_flags = self.state.adjacent_flags.saturating_add(1);
                None
            },
            ChannelMessage::Flagged(false) => {
                self.state.adjacent_flags = self.state.adjacent_flags.saturating_sub(1);
                None
            },
            ChannelMessage::MouseEvent(event) => {
                if self.bounding_box.contains_point((event.x, event.y)) {
                    match event.mouse_btn {
                        crate::message::MouseButton::Left => {
                            if self.state.is_revealed {
                                self.try_clear()
                            } else {
                                self.uncover()
                            }
                        },
                        crate::message::MouseButton::Right => self.try_toggle_flag(),
                        _ => None,
                    }
                } else {
                    None
                }
            },
            _ => None,
        }
    }

    /// Handles each of `messages` in turn, broadcasting what each gives.
    pub fn react_all(&mut self, net: &mut Network, messages: &Vec<ChannelMessage>)
        requires
            old(self).spec_exchange().within(old(net)@.len()),
        ensures
            final(self)@ == old(self)@.run(messages@, old(self).spec_bounding_box()),
            final(net)@ == deliver_all(
                old(net)@,
                old(self).spec_exchange().outbound(),
                old(self)@.sent(messages@, old(self).spec_bounding_box()),
            ),
            final(self).spec_bounding_box() == old(self).spec_bounding_box(),
            final(self).spec_exchange() == old(self).spec_exchange(),
    {
        let ghost s0 = self@;
        let ghost bb = self.bounding_box;
        let ghost q0 = net@;
        let mut i: usize = 0;
        while i < messages.len()
            invariant
                i <= messages@.len(),
                self.bounding_box == bb,
                self.exchange == old(self).exchange,
                self.exchange.within(q0.len()),
                net@.len() == q0.len(),
                self@ == s0.run(messages@.take(i as int), bb),
                net@ == deliver_all(q0, self.exchange.outbound(), s0.sent(messages@.take(i as int), bb)),
            decreases messages@.len() - i,
        {
            let out = self.react(messages[i]);
            proof {
                let t = messages@.take(i + 1);
                assert(t.drop_last() =~= messages@.take(i as int));
                assert(t.last() == messages@[i as int]);
            }
            match out {
                Some(o) => {
                    self.exchange.push_message(net, o);
                    proof {
                        let t = messages@.take(i + 1);
                        let prev = s0.sent(messages@.take(i as int), bb);
                        assert(s0.sent(t, bb) =~= prev.push(o));
                        assert(prev.push(o).drop_last() =~= prev);
                    }
                },
                None => {
                    proof {
                        let t = messages@.take(i + 1);
                        assert(s0.sent(t, bb) =~= s0.sent(messages@.take(i as int), bb));
                    }
                },
            }
            i += 1;
        }
        assert(messages@.take(messages@.len() as int) =~= messages@);
    }

    /// What to draw for this cell.
    pub fn render(&self) -> (r: Draw)
        ensures
            r == (Draw { image: Image::Tile(self@.image()), dst: self.spec_bounding_box() }),
    {
        let image = if self.state.is_revealed {
            if self.state.is_mine {
                TileImage::Mine
            } else {
                TileImage::Count(self.state.adjacent_mines)
            }
        } else if self.state.is_flagged {
            TileImage::Flagged
        } else {
            TileImage::Hidden
        };
        Draw { image: Image::Tile(image), dst: self.bounding_box }
    }

    pub fn is_revealed(&self) -> (r: bool)
        ensures
            r == self@.is_revealed,
    {
        self.state.is_revealed
    }

    pub fn is_flagged(&self) -> (r: bool)
        ensures
            r == self@.is_flagged,
    {
        self.state.is_flagged
    }

    pub fn is_mine(&self) -> (r: bool)
        ensures
            r == self@.is_mine,
    {
        self.state.is_mine
    }

    pub fn adjacent_mines(&self) -> (r: u8)
        ensures
            r == self@.adjacent_mines,
    {
        self.state.adjacent_mines
    }

    pub fn adjacent_flags(&self) -> (r: u8)
        ensures
            r == self@.adjacent_flags,
    {
        self.state.adjacent_flags
    }

    pub fn is_game_over(&self) -> (r: bool)
        ensures
            r == self@.is_game_over,
    {
        self.state.is_game_over
    }

    pub fn state(&self) -> (r: TileState)
        ensures
            r == self@,
    {
        self.state
    }
}

impl MessageExchange for Tile {
    open spec fn links_within(&self, n: nat) -> bool {
        self.spec_exchange().within(n)
    }

    /// Receives what is waiting and reacts to each message in turn.
    fn pull(&mut self, net: &mut Network) -> (count: usize) {
        Tile::pull(self, net)
    }
}

impl Tile {
    /// Receives what is waiting on the cell's channel and reacts to each
    /// message in turn; returns how many messages were received.
    pub fn pull(&mut self, net: &mut Network) -> (count: usize)
        requires
            old(self).spec_exchange().within(old(net)@.len()),
        ensures
            count == old(self).spec_exchange().received(old(net)@).len() - old(self).spec_exchange().buffered().len(),
            final(net)@.len() == old(net)@.len(),
            final(self)@ == old(self)@.run(old(self).spec_exchange().received(old(net)@), old(self).spec_bounding_box()),
            final(net)@ == deliver_all(
                old(self).spec_exchange().drained(old(net)@),
                old(self).spec_exchange().outbound(),
                old(self)@.sent(old(self).spec_exchange().received(old(net)@), old(self).spec_bounding_box()),
            ),
            final(self).spec_bounding_box() == old(self).spec_bounding_box(),
            final(self).spec_exchange().outbound() == old(self).spec_exchange().outbound(),
            final(self).spec_exchange().inbound() == old(self).spec_exchange().inbound(),
            final(self).spec_exchange().buffered() == Seq::<ChannelMessage>::empty(),
    {
        let count = self.exchange.pull(net);
        let messages = self.exchange.get_messages();
        proof {
            assert(messages@ =~= old(self).spec_exchange().received(old(net)@));
        }
        self.react_all(net, &messages);
        proof {
            crate::network::lemma_deliver_all_len(
                old(self).spec_exchange().drained(old(net)@),
                self.exchange.outbound(),
                old(self)@.sent(messages@, self.bounding_box),
            );
        }
        count
    }
}

/// A new round puts a cell back to hidden and unflagged, in a running
/// round, with the flag budget open and no flags counted around it; what the
/// cell holds is left for the grid to set.
pub proof fn lemma_new_round_restores(s: TileState, bounding_box: Rect)
    ensures
        s.next(ChannelMessage::GameStateChanged(GameState::Init), bounding_box) == (
            TileState {
                is_revealed: false,
                is_mine: s.is_mine,
                is_flagged: false,
                adjacent_mines: s.adjacent_mines,
                adjacent_flags: 0,
                flag_remaining: true,
                is_game_over: false,
            },
            None::<ChannelMessage>,
        ),
{
}

/// A blank cell with no mine around it, once revealed, tells its neighbours
/// so; that message makes a hidden, unflagged neighbour of a running round
/// reveal itself, and a neighbour that is blank too passes it on in turn.
pub proof fn lemma_blank_reveal_spreads(s: TileState, neighbor: TileState, bounding_box: Rect, neighbor_box: Rect)
    requires
        s.can_reveal(),
        !s.is_mine,
        s.adjacent_mines == 0,
    ensures
        s.uncover().0.is_revealed,
        s.uncover().1 == Some(ChannelMessage::Revealed(false, false)),
        neighbor.can_reveal() ==> {
            let (t, out) = neighbor.next(ChannelMessage::Revealed(false, false), neighbor_box);
            &&& t.is_revealed
            &&& out == Some(ChannelMessage::Revealed(neighbor.is_mine, neighbor.adjacent_mines > 0))
        },
        !neighbor.can_reveal() ==> neighbor.next(ChannelMessage::Revealed(false, false), neighbor_box) == (
            neighbor,
            None::<ChannelMessage>,
        ),
{
}

impl crate::exchange::Sprite for Tile {
}

/// A cell is never both revealed and flagged: handling any message keeps
/// it so.
pub proof fn lemma_revealed_never_flagged(s: TileState, m: ChannelMessage, bounding_box: Rect)
    requires
        !(s.is_revealed && s.is_flagged),
    ensures
        !(s.next(m, bounding_box).0.is_revealed && s.next(m, bounding_box).0.is_flagged),
{
}

/// Toggling a flag: a hidden cell of a running round gains or loses its
/// flag, a new flag only while the budget allows, and says so; anything else
/// is left as it was and nothing is sent.
pub proof fn lemma_toggle_flag(s: TileState)
    ensures
        (!s.is_game_over && !s.is_revealed && (s.is_flagged || s.flag_remaining)) ==> s.toggle_flag() == (
            TileState { is_flagged: !s.is_flagged, ..s },
            Some(ChannelMessage::Flagged(!s.is_flagged)),
        ),
        !(!s.is_game_over && !s.is_revealed && (s.is_flagged || s.flag_remaining)) ==> s.toggle_flag() == (
            s,
            None::<ChannelMessage>,
        ),
{
}

/// What a change of the round does to a cell: a new round restores it to
/// hidden, unflagged, running, with the budget open and no flags counted; a
/// win or a loss ends its round; starting to play changes nothing. What the
/// cell holds is never touched, nothing is sent, and a second new round
/// changes nothing more.
pub proof fn lemma_game_state_changed(s: TileState, state: GameState, bounding_box: Rect)
    ensures
        ({
            let (t, out) = s.next(ChannelMessage::GameStateChanged(state), bounding_box);
            &&& out == None::<ChannelMessage>
            &&& t.is_mine == s.is_mine && t.adjacent_mines == s.adjacent_mines
            &&& state == GameState::Init ==> !t.is_revealed && !t.is_flagged && !t.is_game_over
                && t.adjacent_flags == 0 && t.flag_remaining
            &&& state == GameState::Init ==> t.next(ChannelMessage::GameStateChanged(GameState::Init), bounding_box).0 == t
            &&& (state == GameState::Win || state == GameState::Lose) ==> t == TileState { is_game_over: true, ..s }
            &&& state == GameState::Playing ==> t == s
        }),
{
}

} // verus!
