use vstd::prelude::*;
use crate::draw::Draw;
use crate::exchange::{Exchange, MessageExchange};
use crate::layout::{Layout, TILE_SIDE};
use crate::message::{ChannelMessage, GameState};
use crate::minefield::{mines_among, Minefield};
use crate::network::{deliver, deliver_all, senders_within, Network, Receiver, Sender};
use crate::options::Options;
use crate::rect::Rect;
use crate::tile::{Tile, TileState};
use crate::wiring::ChannelWiring;

verus! {

/// The senders on the channels of the cells `indices`, whose channels are
/// numbered from `base` on.
pub open spec fn tile_senders(base: nat, indices: Seq<int>) -> Seq<Sender> {
    indices.map_values(|j: int| Sender { channel: (base + j) as usize })
}

/// The outbound links of cell `index`: the listeners, then the channels of
/// its neighbours in row-major order.
pub open spec fn tile_links(listeners: Seq<Sender>, base: nat, o: Options, index: int) -> Seq<Sender> {
    listeners + tile_senders(base, o.neighbors(index))
}

/// The senders on the channels of every cell, in order.
pub open spec fn all_tile_senders(base: nat, count: int) -> Seq<Sender> {
    Seq::new(count as nat, |i: int| Sender { channel: (base + i) as usize })
}

/// Every neighbour of a cell is a cell of the board.
pub proof fn lemma_neighbors_on_board(o: Options, index: int)
    requires
        o.wf(),
        0 <= index < o.tile_count(),
    ensures
        forall|k: int| 0 <= k < o.neighbors(index).len()
            ==> 0 <= #[trigger] o.neighbors(index)[k] < o.tile_count(),
        o.neighbors(index).len() <= 8,
{
    crate::options::lemma_neighbor_cells(o, index);
    assert forall|k: int| 0 <= k < o.neighbors(index).len()
        implies 0 <= #[trigger] o.neighbors(index)[k] < o.tile_count() by {
        let p = o.neighbor_cells(index)[k];
        crate::options::lemma_index_inside(o, p.0 as int, p.1 as int);
    }
}

/// `n` capped at `usize::MAX`.
pub open spec fn saturated(n: nat) -> usize {
    if n > usize::MAX { usize::MAX } else { n as usize }
}

/// The cells' states, the queues and the messages received, after cells
/// `0..k` are pulled in turn, starting from `states` and `q`. Cell `i`
/// receives on channel `base + i`, sends to `tile_links` and sits in its
/// square of `layout`.
pub open spec fn cells_pulled(
    listeners: Seq<Sender>,
    base: nat,
    layout: Layout,
    states: Seq<TileState>,
    q: Seq<Seq<ChannelMessage>>,
    k: nat,
) -> (Seq<TileState>, Seq<Seq<ChannelMessage>>, nat)
    decreases k,
{
    if k == 0 {
        (states, q, 0)
    } else {
        let r = cells_pulled(listeners, base, layout, states, q, (k - 1) as nat);
        let i = k - 1;
        let c = base + i;
        let ms = r.1[c];
        let bb = layout.spec_tile(layout.spec_grid(), i);
        let s = r.0[i];
        (
            r.0.update(i, s.run(ms, bb)),
            deliver_all(r.1.update(c, Seq::empty()), tile_links(listeners, base, layout.options, i), s.sent(ms, bb)),
            r.2 + ms.len(),
        )
    }
}

/// Sending `m` to every cell appends it to each cell's queue.
proof fn lemma_deliver_to_cells(q: Seq<Seq<ChannelMessage>>, base: nat, n: nat, m: ChannelMessage)
    requires
        base + n <= q.len(),
        base + n < usize::MAX,
    ensures
        deliver(q, all_tile_senders(base, n as int), m) == Seq::new(q.len(), |c: int|
            if base <= c < base + n { q[c].push(m) } else { q[c] }),
    decreases n,
{
    if n == 0 {
        assert(all_tile_senders(base, 0) =~= Seq::<Sender>::empty());
        assert(q =~= Seq::new(q.len(), |c: int| if base <= c < base + n { q[c].push(m) } else { q[c] }));
    } else {
        lemma_deliver_to_cells(q, base, (n - 1) as nat, m);
        assert(all_tile_senders(base, n as int).drop_last() =~= all_tile_senders(base, n - 1));
        assert(deliver(q, all_tile_senders(base, n as int), m) =~= Seq::new(q.len(), |c: int|
            if base <= c < base + n { q[c].push(m) } else { q[c] }));
    }
}

proof fn lemma_contains_push(s: Seq<ChannelMessage>, m: ChannelMessage, x: ChannelMessage)
    ensures
        s.push(m).contains(x) == (s.contains(x) || m == x),
{
    if s.contains(x) {
        let k = choose|k: int| 0 <= k < s.len() && s[k] == x;
        assert(s.push(m)[k] == x);
    }
    if m == x {
        assert(s.push(m)[s.len() as int] == x);
    }
    if s.push(m).contains(x) {
        let k = choose|k: int| 0 <= k < s.push(m).len() && s.push(m)[k] == x;
        if k < s.len() {
            assert(s[k] == x);
        }
    }
}

/// The board: the minefield and one cell per square. It routes the round's
/// events to the cells and lays new mines when a round starts.
pub struct Grid {
    layout: Layout,
    bounding_box: Rect,
    tiles: Vec<Tile>,
    minefield: Minefield,
    exchange: Exchange,
    first_channel: Ghost<nat>,
    listeners: Ghost<Seq<Sender>>,
}

impl Grid {
    pub closed spec fn spec_layout(&self) -> Layout {
        self.layout
    }

    pub closed spec fn spec_tiles(&self) -> Seq<Tile> {
        self.tiles@
    }

    pub closed spec fn spec_minefield(&self) -> Minefield {
        self.minefield
    }

    pub closed spec fn spec_exchange(&self) -> Exchange {
        self.exchange
    }

    /// The channel of cell 0; cell `i` receives on channel `first_channel + i`.
    pub closed spec fn first_channel(&self) -> nat {
        self.first_channel@
    }

    /// Where the cells report to, besides their neighbours.
    pub closed spec fn listeners(&self) -> Seq<Sender> {
        self.listeners@
    }

    pub closed spec fn spec_bounding_box(&self) -> Rect {
        self.bounding_box
    }

    pub open spec fn options(&self) -> Options {
        self.spec_layout().options
    }

    /// What cell `i` holds agrees with the minefield.
    pub open spec fn tile_matches_minefield(&self, i: int) -> bool {
        let t = self.spec_tiles()[i]@;
        &&& t.is_mine == self.spec_minefield().mine_set().contains(i as u16)
        &&& t.adjacent_mines == mines_among(self.options().neighbors(i), self.spec_minefield().mine_set())
    }

    /// Cell `i` sits in its square, receives on its own channel and sends to
    /// the listeners and its neighbours.
    pub open spec fn tile_wired(&self, i: int) -> bool {
        let t = self.spec_tiles()[i];
        &&& t.spec_exchange().outbound() == tile_links(self.listeners(), self.first_channel(), self.options(), i)
        &&& t.spec_exchange().inbound() == Some((self.first_channel() + i) as usize)
        &&& t.spec_bounding_box() == self.spec_layout().spec_tile(self.spec_layout().spec_grid(), i)
        &&& t.spec_exchange().buffered() == Seq::<ChannelMessage>::empty()
    }

    /// The grid is well formed on a network of `n` channels.
    pub open spec fn wf(&self, n: nat) -> bool {
        &&& self.spec_layout().wf()
        &&& self.spec_bounding_box() == self.spec_layout().spec_grid()
        &&& self.spec_minefield().wf()
        &&& self.spec_minefield().spec_options() == self.options()
        &&& self.spec_tiles().len() == self.options().tile_count()
        &&& self.first_channel() + self.options().tile_count() <= n
        &&& self.first_channel() + self.options().tile_count() < usize::MAX
        &&& senders_within(self.listeners(), n)
        &&& self.spec_exchange().outbound() == all_tile_senders(self.first_channel(), self.options().tile_count())
        &&& (self.spec_exchange().inbound() matches Some(c) ==> c < self.first_channel())
        &&& self.spec_exchange().buffered() == Seq::<ChannelMessage>::empty()
        &&& forall|i: int| 0 <= i < self.spec_tiles().len() ==> #[trigger] self.tile_wired(i)
        &&& forall|i: int| 0 <= i < self.spec_tiles().len() ==> #[trigger] self.tile_matches_minefield(i)
    }

    /// Every cell's links name channels below `n`.
    proof fn lemma_tiles_within(&self, n: nat)
        requires
            self.wf(n),
        ensures
            forall|i: int| 0 <= i < self.spec_tiles().len()
                ==> (#[trigger] self.spec_tiles()[i]).spec_exchange().within(n),
            self.spec_exchange().within(n),
    {
        let o = self.options();
        let base = self.first_channel();
        assert forall|i: int| 0 <= i < self.spec_tiles().len()
            implies (#[trigger] self.spec_tiles()[i]).spec_exchange().within(n) by {
            assert(self.tile_wired(i));
            lemma_neighbors_on_board(o, i);
            let links = tile_links(self.listeners(), base, o, i);
            assert forall|k: int| 0 <= k < links.len() implies (#[trigger] links[k]).channel < n by {
                if k >= self.listeners().len() {
                    let j = o.neighbors(i)[k - self.listeners().len()];
                    assert(0 <= j < o.tile_count());
                }
            }
        }
        let out = self.spec_exchange().outbound();
        assert forall|k: int| 0 <= k < out.len() implies (#[trigger] out[k]).channel < n by {
        }
    }

    /// A board for `layout` with its mines laid, receiving on the links wired
    /// for `id`. Each cell gets a channel of its own and sends to the grid's
    /// own outbound links and to its neighbours; the grid sends to every cell.
    pub fn new(layout: Layout, wiring: &mut ChannelWiring, id: usize) -> (r: Self)
        requires
            layout.wf(),
            old(wiring).wf(),
            old(wiring).queues().len() + layout.options.tile_count() < usize::MAX,
        ensures
            final(wiring).wf(),
            final(wiring).queues().len() == old(wiring).queues().len() + layout.options.tile_count(),
            final(wiring).links() == old(wiring).links().remove(id),
            final(wiring).receivers() == old(wiring).receivers().remove(id),
            final(wiring).transports() == old(wiring).transports(),
            r.wf(final(wiring).queues().len()),
            r.spec_layout() == layout,
            r.first_channel() == old(wiring).queues().len(),
            r.listeners() == old(wiring).outbound_of(id),
            r.spec_exchange().inbound() == old(wiring).inbound_of(id),
            forall|i: int| 0 <= i < r.spec_tiles().len() ==> (#[trigger] r.spec_tiles()[i])@ == (TileState {
                is_revealed: false,
                is_flagged: false,
                adjacent_flags: 0,
                flag_remaining: true,
                is_game_over: false,
                ..r.spec_tiles()[i]@
            }),
    {
        let mut exchange = Exchange::new_from_wiring(wiring, id);
        let bounding_box = layout.grid();
        let minefield = Minefield::new(layout.options);
        let ghost base = wiring.queues().len();
        let (mut senders, tiles) = Grid::build_tiles(layout, &minefield, &exchange, wiring);
        exchange.replace_senders(&mut senders);
        let r = Self {
            layout,
            bounding_box,
            tiles,
            minefield,
            exchange,
            first_channel: Ghost(base),
            listeners: Ghost(old(wiring).outbound_of(id)),
        };
        proof {
            assert forall|i: int| 0 <= i < r.spec_tiles().len() implies #[trigger] r.tile_wired(i) by {}
            assert forall|i: int| 0 <= i < r.spec_tiles().len() implies #[trigger] r.tile_matches_minefield(i) by {
                lemma_neighbors_on_board(layout.options, i);
                crate::minefield::lemma_mines_among_bound(layout.options.neighbors(i), r.spec_minefield().mine_set());
            }
        }
        r
    }

    /// Opens a channel per cell, then makes the cells: each sends to the
    /// listeners of `exchange` and to its neighbours, in row-major order.
    fn build_tiles(
        layout: Layout,
        minefield: &Minefield,
        exchange: &Exchange,
        wiring: &mut ChannelWiring,
    ) -> (r: (Vec<Sender>, Vec<Tile>))
        requires
            layout.wf(),
            minefield.wf(),
            minefield.spec_options() == layout.options,
            old(wiring).wf(),
            old(wiring).queues().len() + layout.options.tile_count() < usize::MAX,
        ensures
            final(wiring).wf(),
            final(wiring).queues().len() == old(wiring).queues().len() + layout.options.tile_count(),
            final(wiring).links() == old(wiring).links(),
            final(wiring).receivers() == old(wiring).receivers(),
            final(wiring).transports() == old(wiring).transports(),
            r.0@ == all_tile_senders(old(wiring).queues().len(), layout.options.tile_count()),
            r.1@.len() == layout.options.tile_count(),
            forall|i: int| 0 <= i < r.1@.len() ==> {
                let t = #[trigger] r.1@[i];
                &&& t.spec_exchange().outbound() == tile_links(
                    exchange.outbound(),
                    old(wiring).queues().len(),
                    layout.options,
                    i,
                )
                &&& t.spec_exchange().inbound() == Some((old(wiring).queues().len() + i) as usize)
                &&& t.spec_exchange().buffered() == Seq::<ChannelMessage>::empty()
                &&& t.spec_bounding_box() == layout.spec_tile(layout.spec_grid(), i)
                &&& t@ == (TileState {
                    is_revealed: false,
                    is_mine: minefield.mine_set().contains(i as u16),
                    is_flagged: false,
                    adjacent_mines: mines_among(layout.options.neighbors(i), minefield.mine_set()) as u8,
                    adjacent_flags: 0,
                    flag_remaining: true,
                    is_game_over: false,
                })
            },
    {
        let ghost base = wiring.queues().len();
        let tile_count = layout.options.tiles();
        let ghost n = tile_count as int;
        let mut senders: Vec<Sender> = Vec::new();
        let mut receivers: Vec<Receiver> = Vec::new();
        let mut index: i16 = 0;
        while index < tile_count
            invariant
                0 <= index <= tile_count,
                tile_count == n,
                n == layout.options.tile_count(),
                base + n < usize::MAX,
                wiring.wf(),
                wiring.queues().len() == base + index,
                wiring.links() == old(wiring).links(),
                wiring.receivers() == old(wiring).receivers(),
                wiring.transports() == old(wiring).transports(),
                senders@ == all_tile_senders(base, index as int),
                receivers@.len() == index,
                forall|k: int| 0 <= k < index ==> (#[trigger] receivers@[k]).channel == base + k,
            decreases tile_count - index,
        {
            let (tx, rx) = wiring.open_channel();
            senders.push(tx);
            receivers.push(rx);
            index += 1;
            assert(senders@ =~= all_tile_senders(base, index as int));
        }
        let mut tiles: Vec<Tile> = Vec::new();
        let mut index: i16 = 0;
        while index < tile_count
            invariant
                0 <= index <= tile_count,
                tile_count == n,
                n == layout.options.tile_count(),
                layout.wf(),
                minefield.wf(),
                minefield.spec_options() == layout.options,
                senders@ == all_tile_senders(base, n),
                receivers@.len() == n - index,
                forall|k: int| 0 <= k < receivers@.len() ==> (#[trigger] receivers@[k]).channel == base + index + k,
                tiles@.len() == index,
                forall|i: int| 0 <= i < index ==> {
                    let t = #[trigger] tiles@[i];
                    &&& t.spec_exchange().outbound() == tile_links(exchange.outbound(), base, layout.options, i)
                    &&& t.spec_exchange().inbound() == Some((base + i) as usize)
                    &&& t.spec_exchange().buffered() == Seq::<ChannelMessage>::empty()
                    &&& t.spec_bounding_box() == layout.spec_tile(layout.spec_grid(), i)
                    &&& t@ == (TileState {
                        is_revealed: false,
                        is_mine: minefield.mine_set().contains(i as u16),
                        is_flagged: false,
                        adjacent_mines: mines_among(layout.options.neighbors(i), minefield.mine_set()) as u8,
                        adjacent_flags: 0,
                        flag_remaining: true,
                        is_game_over: false,
                    })
                },
            decreases tile_count - index,
        {
            let links = Grid::links_of(layout.options, index as u16, exchange, &senders, Ghost(base));
            let bounding_box = layout.grid_tile(index);
            let receiver = receivers.remove(0);
            let tile_exchange = Exchange::new(links, Some(receiver));
            let mut tile = Tile::new(tile_exchange, bounding_box);
            let adjacent_mines = minefield.adjacent_mines(index as u16);
            let is_mine = minefield.mine_at(index as u16);
            tile.reset(is_mine, adjacent_mines);
            tiles.push(tile);
            index += 1;
        }
        (senders, tiles)
    }

    /// The outbound links of cell `index`.
    fn links_of(
        options: Options,
        index: u16,
        exchange: &Exchange,
        senders: &Vec<Sender>,
        base: Ghost<nat>,
    ) -> (r: Vec<Sender>)
        requires
            options.wf(),
            index < options.tile_count(),
            senders@ == all_tile_senders(base@, options.tile_count()),
        ensures
            r@ == tile_links(exchange.outbound(), base@, options, index as int),
    {
        let ghost all = options.neighbors(index as int);
        let mut links = exchange.clone_senders();
        let cells = options.for_each_neighbor(index);
        proof {
            crate::options::lemma_neighbor_cells(options, index as int);
        }
        let mut k: usize = 0;
        while k < cells.len()
            invariant
                options.wf(),
                k <= cells@.len(),
                cells@ == options.neighbor_cells(index as int),
                all == options.neighbors(index as int),
                senders@ == all_tile_senders(base@, options.tile_count()),
                forall|j: int| 0 <= j < cells@.len()
                    ==> options.inside(#[trigger] cells@[j].0 as int, cells@[j].1 as int),
                links@ == exchange.outbound() + tile_senders(base@, all.take(k as int)),
            decreases cells@.len() - k,
        {
            let (r, c) = cells[k];
            assert(options.inside(cells@[k as int].0 as int, cells@[k as int].1 as int));
            let j = options.index(r, c);
            links.push(senders[j as usize]);
            proof {
                assert(all[k as int] == j as int);
                assert(all.take(k + 1) =~= all.take(k as int).push(j as int));
                assert(tile_senders(base@, all.take(k + 1)) =~= tile_senders(base@, all.take(k as int)).push(
                    Sender { channel: (base@ + j) as usize },
                ));
                assert(links@ =~= exchange.outbound() + tile_senders(base@, all.take(k + 1)));
            }
            k += 1;
        }
        assert(all.take(cells@.len() as int) =~= all);
        links
    }
}

impl Grid {
    /// The cell under the point (x, y) of the grid's rectangle.
    pub open spec fn hit_index(&self, x: int, y: int) -> int {
        let row = (y - self.spec_bounding_box().y) / (TILE_SIDE as int);
        let column = (x - self.spec_bounding_box().x) / (TILE_SIDE as int);
        self.options().spec_index(row, column)
    }

    /// Nothing waits on the grid's channel or on any cell's channel.
    pub open spec fn at_rest(&self, q: Seq<Seq<ChannelMessage>>) -> bool {
        &&& (self.spec_exchange().inbound() matches Some(c) ==> q[c as int].len() == 0)
        &&& forall|j: int| 0 <= j < self.options().tile_count() ==> (#[trigger] q[self.first_channel() + j]).len() == 0
    }

    /// Lays new mines and gives every cell its new contents; the cells'
    /// other state is left as it was.
    fn reset_board(&mut self, Ghost(n): Ghost<nat>)
        requires
            old(self).wf(n),
        ensures
            final(self).wf(n),
            final(self).spec_layout() == old(self).spec_layout(),
            final(self).spec_exchange() == old(self).spec_exchange(),
            final(self).first_channel() == old(self).first_channel(),
            final(self).listeners() == old(self).listeners(),
            final(self).spec_tiles().len() == old(self).spec_tiles().len(),
            forall|i: int| 0 <= i < final(self).spec_tiles().len() ==> (#[trigger] final(self).spec_tiles()[i])@ == (TileState {
                is_mine: final(self).spec_minefield().mine_set().contains(i as u16),
                adjacent_mines: mines_among(final(self).options().neighbors(i), final(self).spec_minefield().mine_set()) as u8,
                ..old(self).spec_tiles()[i]@
            }),
    {
        self.minefield.reset();
        let ghost o = self.layout.options;
        let mut index: usize = 0;
        while index < self.tiles.len()
            invariant
                o == self.layout.options,
                self.layout == old(self).layout,
                self.bounding_box == old(self).bounding_box,
                self.exchange == old(self).exchange,
                self.first_channel == old(self).first_channel,
                self.listeners == old(self).listeners,
                self.minefield.wf(),
                self.minefield.spec_options() == o,
                o.wf(),
                self.tiles@.len() == old(self).tiles@.len(),
                self.tiles@.len() == o.tile_count(),
                index <= self.tiles@.len(),
                forall|i: int| 0 <= i < self.tiles@.len() ==> {
                    let t = #[trigger] self.tiles@[i];
                    let t0 = old(self).tiles@[i];
                    &&& t.spec_exchange() == t0.spec_exchange()
                    &&& t.spec_bounding_box() == t0.spec_bounding_box()
                    &&& (i < index ==> t@ == (TileState {
                        is_mine: self.minefield.mine_set().contains(i as u16),
                        adjacent_mines: mines_among(o.neighbors(i), self.minefield.mine_set()) as u8,
                        ..t0@
                    }))
                    &&& (i >= index ==> t@ == t0@)
                },
            decreases self.tiles@.len() - index,
        {
            let is_mine = self.minefield.mine_at(index as u16);
            let adjacent_mines = self.minefield.adjacent_mines(index as u16);
            self.tiles[index].reset(is_mine, adjacent_mines);
            index += 1;
        }
        proof {
            assert forall|i: int| 0 <= i < self.spec_tiles().len() implies #[trigger] self.tile_wired(i) by {
                assert(old(self).tile_wired(i));
            }
            assert forall|i: int| 0 <= i < self.spec_tiles().len() implies #[trigger] self.tile_matches_minefield(i) by {
                lemma_neighbors_on_board(o, i);
                crate::minefield::lemma_mines_among_bound(o.neighbors(i), self.minefield.mine_set());
            }
        }
    }

    /// Handles one message of the grid's own channel. A new round lays new
    /// mines and is passed on to every cell; other changes of the round and
    /// of the flag budget are passed on unchanged; a click on the board goes
    /// to the cell under it.
    pub fn react(&mut self, net: &mut Network, message: ChannelMessage)
        requires
            old(self).wf(old(net)@.len()),
        ensures
            final(self).wf(final(net)@.len()),
            final(net)@.len() == old(net)@.len(),
            final(self).spec_layout() == old(self).spec_layout(),
            final(self).first_channel() == old(self).first_channel(),
            final(self).listeners() == old(self).listeners(),
            final(self).spec_exchange() == old(self).spec_exchange(),
            match message {
                ChannelMessage::GameStateChanged(GameState::Init) => {
                    &&& final(net)@ == deliver(old(net)@, old(self).spec_exchange().outbound(), message)
                    &&& forall|i: int| 0 <= i < final(self).spec_tiles().len() ==> (#[trigger] final(self).spec_tiles()[i])@ == (TileState {
                        is_mine: final(self).spec_minefield().mine_set().contains(i as u16),
                        adjacent_mines: mines_among(final(self).options().neighbors(i), final(self).spec_minefield().mine_set()) as u8,
                        ..old(self).spec_tiles()[i]@
                    })
                },
                ChannelMessage::GameStateChanged(_) | ChannelMessage::FlagStateChanged(_) => {
                    &&& final(net)@ == deliver(old(net)@, old(self).spec_exchange().outbound(), message)
                    &&& final(self).spec_tiles() == old(self).spec_tiles()
                    &&& final(self).spec_minefield() == old(self).spec_minefield()
                },
                ChannelMessage::MouseEvent(event) => {
                    &&& final(self).spec_tiles() == old(self).spec_tiles()
                    &&& final(self).spec_minefield() == old(self).spec_minefield()
                    &&& if old(self).spec_bounding_box().holds(event.x as int, event.y as int) {
                        let c = old(self).first_channel() + old(self).hit_index(event.x as int, event.y as int);
                        &&& 0 <= old(self).hit_index(event.x as int, event.y as int) < old(self).options().tile_count()
                        &&& final(net)@ == old(net)@.update(c, old(net)@[c].push(message))
                    } else {
                        final(net)@ == old(net)@
                    }
                },
                _ => {
                    &&& final(net)@ == old(net)@
                    &&& final(self).spec_tiles() == old(self).spec_tiles()
                    &&& final(self).spec_minefield() == old(self).spec_minefield()
                },
            },
    {
        proof {
            self.lemma_tiles_within(net@.len());
        }
        match message {
            ChannelMessage::GameStateChanged(GameState::Init) => {
                self.reset_board(Ghost(net@.len()));
                self.exchange.push_message(net, message);
            },
            ChannelMessage::GameStateChanged(_) | ChannelMessage::FlagStateChanged(_) => {
                self.exchange.push_message(net, message);
            },
            ChannelMessage::MouseEvent(event) => {
                if self.bounding_box.contains_point((event.x, event.y)) {
                    let index = self.hit(event.x, event.y);
                    self.exchange.push_message_to_index(net, message, index);
                }
            },
            _ => {},
        }
        proof {
            assert forall|i: int| 0 <= i < self.spec_tiles().len() implies #[trigger] self.tile_wired(i) by {
                assert(old(self).tile_wired(i));
            }
        }
    }

    /// The cell under (x, y), a point of the grid's rectangle.
    fn hit(&self, x: i32, y: i32) -> (r: usize)
        requires
            self.spec_layout().wf(),
            self.spec_bounding_box() == self.spec_layout().spec_grid(),
            self.spec_bounding_box().holds(x as int, y as int),
        ensures
            r == self.hit_index(x as int, y as int),
            r < self.options().tile_count(),
    {
        let o = self.layout.options;
        let dx = (x as i64 - self.bounding_box.x as i64) as i32;
        let dy = (y as i64 - self.bounding_box.y as i64) as i32;
        let column = dx / (TILE_SIDE as i32);
        let row = dy / (TILE_SIDE as i32);
        proof {
            let side = TILE_SIDE as int;
            assert(0 <= dx < o.columns * side);
            assert(0 <= dy < o.rows * side);
            let (c, dxi, r, dyi) = (column as int, dx as int, row as int, dy as int);
            assert(c == dxi / side && r == dyi / side);
            assert(0 <= c < o.columns) by (nonlinear_arith)
                requires c == dxi / side, 0 <= dxi < o.columns * side, side == 20;
            assert(0 <= r < o.rows) by (nonlinear_arith)
                requires r == dyi / side, 0 <= dyi < o.rows * side, side == 20;
        }
        o.index(row as i16, column as i16) as usize
    }

    /// Whether the grid passes `m` on to cell `j`: every change of the round
    /// and of the flag budget goes to every cell, a click on the board to the
    /// cell under it, and nothing else to any cell.
    pub open spec fn routes(&self, m: ChannelMessage, j: int) -> bool {
        match m {
            ChannelMessage::GameStateChanged(_) | ChannelMessage::FlagStateChanged(_) => true,
            ChannelMessage::MouseEvent(e) => self.spec_bounding_box().holds(e.x as int, e.y as int)
                && self.hit_index(e.x as int, e.y as int) == j,
            _ => false,
        }
    }

    /// The messages of `ms` that the grid passes on to cell `j`, in order.
    pub open spec fn routed_to(&self, ms: Seq<ChannelMessage>, j: int) -> Seq<ChannelMessage>
        decreases ms.len(),
    {
        if ms.len() == 0 {
            Seq::empty()
        } else {
            self.routed_to(ms.drop_last(), j) + if self.routes(ms.last(), j) {
                seq![ms.last()]
            } else {
                Seq::empty()
            }
        }
    }

    /// The queues once the grid has received `ms` from its channel and passed
    /// each on.
    pub open spec fn route_net(&self, q: Seq<Seq<ChannelMessage>>, ms: Seq<ChannelMessage>) -> Seq<Seq<ChannelMessage>> {
        Seq::new(q.len(), |c: int|
            if (match self.spec_exchange().inbound() {
                Some(ci) => ci as int == c,
                None => false,
            }) {
                Seq::empty()
            } else if self.first_channel() <= c < self.first_channel() + self.options().tile_count() {
                q[c] + self.routed_to(ms, c - self.first_channel())
            } else {
                q[c]
            })
    }

    /// The state of every cell, in order.
    pub open spec fn tile_states(&self) -> Seq<TileState> {
        self.spec_tiles().map_values(|t: Tile| t@)
    }

    /// `states` with what each cell holds taken from the grid's minefield.
    pub open spec fn rekeyed(&self, states: Seq<TileState>) -> Seq<TileState> {
        Seq::new(states.len(), |i: int| TileState {
            is_mine: self.spec_minefield().mine_set().contains(i as u16),
            adjacent_mines: mines_among(self.options().neighbors(i), self.spec_minefield().mine_set()) as u8,
            ..states[i]
        })
    }

    /// How a pull took the grid from `self` on queues `q` to `after` on
    /// queues `q2`, receiving `count` messages in all: the grid receives the
    /// messages `ms` of its channel and passes each on; a new round among
    /// them lays the mines of `after`'s minefield and gives each cell its
    /// contents; then each cell, first to last, is pulled.
    pub open spec fn pulled(&self, q: Seq<Seq<ChannelMessage>>, after: Grid, q2: Seq<Seq<ChannelMessage>>, count: usize) -> bool {
        let ms = self.spec_exchange().received(q);
        let init = ms.contains(ChannelMessage::GameStateChanged(GameState::Init));
        let s1 = if init { after.rekeyed(self.tile_states()) } else { self.tile_states() };
        let r = cells_pulled(self.listeners(), self.first_channel(), self.spec_layout(), s1, self.route_net(q, ms), self.options().tile_count() as nat);
        &&& after.tile_states() == r.0
        &&& q2 == r.1
        &&& count == saturated(ms.len() + r.2)
        &&& !init ==> after.spec_minefield() == self.spec_minefield()
    }

    /// Receives what waits on the grid's channel and passes each message on,
    /// laying new mines on a new round. Returns how many were received.
    pub fn route(&mut self, net: &mut Network) -> (count: usize)
        requires
            old(self).wf(old(net)@.len()),
        ensures
            final(self).wf(final(net)@.len()),
            final(net)@.len() == old(net)@.len(),
            final(self).spec_layout() == old(self).spec_layout(),
            final(self).first_channel() == old(self).first_channel(),
            final(self).listeners() == old(self).listeners(),
            final(self).spec_exchange().inbound() == old(self).spec_exchange().inbound(),
            ({
                let ms = old(self).spec_exchange().received(old(net)@);
                let init = ms.contains(ChannelMessage::GameStateChanged(GameState::Init));
                &&& count == ms.len()
                &&& final(net)@ == old(self).route_net(old(net)@, ms)
                &&& final(self).tile_states() == if init {
                    final(self).rekeyed(old(self).tile_states())
                } else {
                    old(self).tile_states()
                }
                &&& !init ==> final(self).spec_minefield() == old(self).spec_minefield()
            }),
            count == 0 ==> final(net)@ == old(net)@,
            count == 0 ==> (old(self).spec_exchange().inbound() matches Some(c) ==> old(net)@[c as int].len() == 0),
    {
        let ghost n = net@.len();
        let ghost q0 = net@;
        let ghost g0 = *self;
        let ghost base = self.first_channel@;
        let ghost tc = self.layout.options.tile_count();
        let count = self.exchange.pull(net);
        proof {
            if count == 0 {
                crate::exchange::lemma_nothing_received(old(self).spec_exchange(), old(net)@);
            }
        }
        let messages = self.exchange.get_messages();
        let ghost ms = messages@;
        proof {
            assert(ms =~= g0.spec_exchange().received(q0));
            assert forall|c: int| 0 <= c < net@.len() implies net@[c] =~= g0.route_net(q0, ms.take(0))[c] by {
                assert(ms.take(0).len() == 0);
                assert(g0.routed_to(ms.take(0), c - base) =~= Seq::<ChannelMessage>::empty());
                let rn = g0.route_net(q0, ms.take(0));
                assert(net@.len() == q0.len());
                match g0.spec_exchange().inbound() {
                    Some(ci) => {
                        assert(net@ == q0.update(ci as int, Seq::empty()));
                        if c == ci {
                            assert(rn[c] == Seq::<ChannelMessage>::empty());
                        } else {
                            assert(net@[c] == q0[c]);
                            assert(rn[c] =~= q0[c]);
                        }
                    },
                    None => {
                        assert(net@ == q0);
                        assert(rn[c] =~= q0[c]);
                    },
                }
            }
            assert(net@ =~= g0.route_net(q0, ms.take(0)));
            assert forall|i: int| 0 <= i < self.spec_tiles().len() implies #[trigger] self.tile_wired(i) by {
                assert(old(self).tile_wired(i));
            }
            assert forall|i: int| 0 <= i < self.spec_tiles().len() implies #[trigger] self.tile_matches_minefield(i) by {
                assert(old(self).tile_matches_minefield(i));
            }
            assert(self.tile_states() =~= g0.tile_states());
        }
        let mut k: usize = 0;
        while k < messages.len()
            invariant
                self.wf(n),
                net@.len() == n,
                messages@ == ms,
                k <= ms.len(),
                self.spec_layout() == g0.spec_layout(),
                self.spec_bounding_box() == g0.spec_bounding_box(),
                self.first_channel() == g0.first_channel(),
                self.listeners() == g0.listeners(),
                self.spec_exchange().inbound() == g0.spec_exchange().inbound(),
                base == g0.first_channel(),
                tc == g0.options().tile_count(),
                g0.wf(n),
                net@ == g0.route_net(q0, ms.take(k as int)),
                self.tile_states() == if ms.take(k as int).contains(ChannelMessage::GameStateChanged(GameState::Init)) {
                    self.rekeyed(g0.tile_states())
                } else {
                    g0.tile_states()
                },
                !ms.take(k as int).contains(ChannelMessage::GameStateChanged(GameState::Init))
                    ==> self.spec_minefield() == g0.spec_minefield(),
                count == 0 ==> ms.len() == 0 && net@ == q0,
            decreases ms.len() - k,
        {
            let m = messages[k];
            let ghost before = *self;
            let ghost qb = net@;
            self.react(net, m);
            proof {
                let t = ms.take(k + 1);
                assert(t.drop_last() =~= ms.take(k as int));
                assert(t.last() == m);
                let prev = ms.take(k as int);
                lemma_contains_push(prev, m, ChannelMessage::GameStateChanged(GameState::Init));
                assert(t =~= prev.push(m));
                match m {
                    ChannelMessage::GameStateChanged(_) | ChannelMessage::FlagStateChanged(_) => {
                        lemma_deliver_to_cells(qb, base, tc as nat, m);
                    },
                    _ => {},
                }
                assert forall|c: int| 0 <= c < net@.len() implies net@[c] =~= g0.route_net(q0, t)[c] by {
                    let j = c - base;
                    assert(g0.routed_to(t, j) == g0.routed_to(prev, j) + if g0.routes(m, j) {
                        seq![m]
                    } else {
                        Seq::<ChannelMessage>::empty()
                    });
                    assert(qb[c] == g0.route_net(q0, prev)[c]);
                }
                assert(net@ =~= g0.route_net(q0, t));
                if m == ChannelMessage::GameStateChanged(GameState::Init) {
                    assert forall|i: int| 0 <= i < self.tile_states().len()
                        implies self.tile_states()[i] == self.rekeyed(g0.tile_states())[i] by {
                        assert(self.tile_states()[i] == self.spec_tiles()[i]@);
                        assert(before.tile_states()[i] == before.spec_tiles()[i]@);
                        if prev.contains(ChannelMessage::GameStateChanged(GameState::Init)) {
                            assert(before.tile_states()[i] == before.rekeyed(g0.tile_states())[i]);
                        } else {
                            assert(before.tile_states()[i] == g0.tile_states()[i]);
                        }
                    }
                    assert(self.tile_states() =~= self.rekeyed(g0.tile_states()));
                } else if prev.contains(ChannelMessage::GameStateChanged(GameState::Init)) {
                    assert(self.tile_states() =~= self.rekeyed(g0.tile_states()));
                } else {
                    assert(self.tile_states() =~= g0.tile_states());
                }
            }
            k += 1;
        }
        proof {
            assert(ms.take(ms.len() as int) =~= ms);
        }
        count
    }

    /// Pulls every cell, first to last, each as `Tile::pull` says. Returns
    /// how many messages the cells received in all.
    pub fn pull_cells(&mut self, net: &mut Network) -> (count: usize)
        requires
            old(self).wf(old(net)@.len()),
        ensures
            final(self).wf(final(net)@.len()),
            final(net)@.len() == old(net)@.len(),
            final(self).spec_layout() == old(self).spec_layout(),
            final(self).first_channel() == old(self).first_channel(),
            final(self).listeners() == old(self).listeners(),
            final(self).spec_exchange() == old(self).spec_exchange(),
            final(self).spec_minefield() == old(self).spec_minefield(),
            ({
                let r = cells_pulled(
                    old(self).listeners(),
                    old(self).first_channel(),
                    old(self).spec_layout(),
                    old(self).tile_states(),
                    old(net)@,
                    old(self).options().tile_count() as nat,
                );
                &&& final(self).tile_states() == r.0
                &&& final(net)@ == r.1
                &&& count == saturated(r.2)
            }),
            count == 0 ==> final(net)@ == old(net)@,
            count == 0 ==> forall|j: int| 0 <= j < old(self).options().tile_count()
                ==> (#[trigger] old(net)@[old(self).first_channel() + j]).len() == 0,
            (forall|j: int| 0 <= j < old(self).options().tile_count()
                ==> (#[trigger] old(net)@[old(self).first_channel() + j]).len() == 0) ==> count == 0,
    {
        let ghost n = net@.len();
        let ghost q0 = net@;
        let ghost s0 = self.tile_states();
        let ghost listeners = self.listeners@;
        let ghost base = self.first_channel@;
        let ghost layout = self.layout;
        let mut count: usize = 0;
        let mut index: usize = 0;
        while index < self.tiles.len()
            invariant
                self.wf(n),
                net@.len() == n,
                index <= self.tiles@.len(),
                self.spec_layout() == layout,
                layout == old(self).spec_layout(),
                self.first_channel() == base,
                base == old(self).first_channel(),
                self.listeners() == listeners,
                listeners == old(self).listeners(),
                self.spec_exchange() == old(self).spec_exchange(),
                self.spec_minefield() == old(self).spec_minefield(),
                s0 == old(self).tile_states(),
                q0 == old(net)@,
                ({
                    let r = cells_pulled(listeners, base, layout, s0, q0, index as nat);
                    &&& self.tile_states() == r.0
                    &&& net@ == r.1
                    &&& count == saturated(r.2)
                }),
                count == 0 ==> net@ == q0,
                count == 0 ==> forall|j: int| 0 <= j < index ==> (#[trigger] q0[base + j]).len() == 0,
                (forall|j: int| 0 <= j < old(self).options().tile_count() ==> (#[trigger] q0[base + j]).len() == 0)
                    ==> count == 0,
            decreases self.tiles@.len() - index,
        {
            proof {
                self.lemma_tiles_within(n);
            }
            let ghost g0 = *self;
            let ghost t0 = self.tiles@[index as int];
            let ghost q = net@;
            let received = self.tiles[index].pull(net);
            count = count.saturating_add(received);
            proof {
                assert(g0.tile_wired(index as int));
                crate::tile::lemma_run_keeps_contents(t0@, t0.spec_exchange().received(q), t0.spec_bounding_box());
                let r = cells_pulled(listeners, base, layout, s0, q0, index as nat);
                assert(t0@ == r.0[index as int]);
                assert(t0.spec_exchange().received(q) =~= q[base + index]);
                assert(self.tile_states() =~= r.0.update(index as int, t0@.run(q[base + index], t0.spec_bounding_box())));
                if forall|j: int| 0 <= j < old(self).options().tile_count() ==> (#[trigger] q0[base + j]).len() == 0 {
                    assert(q0[base + index].len() == 0);
                    crate::exchange::lemma_idle(t0.spec_exchange(), q);
                }
                if count == 0 {
                    crate::exchange::lemma_nothing_received(t0.spec_exchange(), q);
                    assert(net@ =~= q);
                    assert(q[base + index].len() == 0);
                }
                assert forall|i: int| 0 <= i < self.spec_tiles().len() implies #[trigger] self.tile_wired(i) by {
                    assert(g0.tile_wired(i));
                    if i != index {
                        assert(self.spec_tiles()[i] == g0.spec_tiles()[i]);
                    }
                }
                assert forall|i: int| 0 <= i < self.spec_tiles().len() implies #[trigger] self.tile_matches_minefield(i) by {
                    assert(g0.tile_matches_minefield(i));
                    if i != index {
                        assert(self.spec_tiles()[i] == g0.spec_tiles()[i]);
                    }
                }
            }
            index += 1;
        }
        count
    }

    /// Receives what waits on the grid's channel and passes it on, then lets
    /// every cell, first to last, receive and react. Returns how many messages
    /// were received in all.
    pub fn pull(&mut self, net: &mut Network) -> (count: usize)
        requires
            old(self).wf(old(net)@.len()),
        ensures
            final(self).wf(final(net)@.len()),
            final(net)@.len() == old(net)@.len(),
            final(self).spec_layout() == old(self).spec_layout(),
            final(self).first_channel() == old(self).first_channel(),
            final(self).listeners() == old(self).listeners(),
            final(self).spec_exchange().inbound() == old(self).spec_exchange().inbound(),
            old(self).pulled(old(net)@, *final(self), final(net)@, count),
            count == 0 ==> final(net)@ == old(net)@,
            count == 0 ==> old(self).at_rest(old(net)@) && final(self).at_rest(final(net)@),
            old(self).at_rest(old(net)@) ==> count == 0,
    {
        let routed = self.route(net);
        let ghost mid = *self;
        let ghost q1 = net@;
        let cells = self.pull_cells(net);
        proof {
            assert(mid.tile_states() == (if old(self).spec_exchange().received(old(net)@).contains(
                ChannelMessage::GameStateChanged(GameState::Init),
            ) {
                self.rekeyed(old(self).tile_states())
            } else {
                old(self).tile_states()
            }));
            if routed + cells == 0 {
                assert(old(self).at_rest(old(net)@));
            }
            if old(self).at_rest(old(net)@) {
                crate::exchange::lemma_idle(old(self).spec_exchange(), old(net)@);
                assert(routed == 0);
                assert(q1 == old(net)@);
            }
        }
        routed.saturating_add(cells)
    }

    /// What to draw for every cell, first to last.
    pub fn render(&self) -> (r: Vec<Draw>)
        ensures
            r@.len() == self.spec_tiles().len(),
            forall|i: int| 0 <= i < r@.len() ==> #[trigger] r@[i] == (Draw {
                image: crate::draw::Image::Tile(self.spec_tiles()[i]@.image()),
                dst: self.spec_tiles()[i].spec_bounding_box(),
            }),
    {
        let mut r: Vec<Draw> = Vec::new();
        let mut i: usize = 0;
        while i < self.tiles.len()
            invariant
                i <= self.tiles@.len(),
                r@.len() == i,
                forall|j: int| 0 <= j < i ==> #[trigger] r@[j] == (Draw {
                    image: crate::draw::Image::Tile(self.tiles@[j]@.image()),
                    dst: self.tiles@[j].spec_bounding_box(),
                }),
            decreases self.tiles@.len() - i,
        {
            r.push(self.tiles[i].render());
            i += 1;
        }
        r
    }

    /// Number of cells.
    pub fn tile_count(&self) -> (r: usize)
        ensures
            r == self.spec_tiles().len(),
    {
        self.tiles.len()
    }

    /// The cell at `index`.
    pub fn tile(&self, index: usize) -> (r: &Tile)
        requires
            index < self.spec_tiles().len(),
        ensures
            *r == self.spec_tiles()[index as int],
    {
        &self.tiles[index]
    }

    /// Whether the cell at `index` holds a mine.
    pub fn mine_at(&self, index: u16) -> (r: bool)
        ensures
            r == self.spec_minefield().mine_set().contains(index),
    {
        self.minefield.mine_at(index)
    }
}

impl MessageExchange for Grid {
    open spec fn links_within(&self, n: nat) -> bool {
        self.wf(n)
    }

    fn pull(&mut self, net: &mut Network) -> (count: usize) {
        Grid::pull(self, net)
    }
}

/// The messages of a cell reach the grid's listeners and exactly the cells
/// around it on the board, each through that cell's own channel.
pub proof fn lemma_cell_reaches_neighbors(g: Grid, n: nat, i: int)
    requires
        g.wf(n),
        0 <= i < g.spec_tiles().len(),
    ensures
        g.spec_tiles()[i].spec_exchange().outbound() == g.listeners() + tile_senders(
            g.first_channel(),
            g.options().neighbors(i),
        ),
        forall|j: int| 0 <= j < g.spec_tiles().len()
            ==> (#[trigger] g.spec_tiles()[j]).spec_exchange().inbound() == Some((g.first_channel() + j) as usize),
{
    assert(g.tile_wired(i));
    assert forall|j: int| 0 <= j < g.spec_tiles().len()
        implies (#[trigger] g.spec_tiles()[j]).spec_exchange().inbound() == Some((g.first_channel() + j) as usize) by {
        assert(g.tile_wired(j));
    }
}

/// Every cell holds what the grid's minefield says: a mine or not, and the
/// count of mines among its neighbours. Once it handles a new round it is
/// also hidden, unflagged and in a running round.
pub proof fn lemma_new_round_cells(g: Grid, n: nat, i: int)
    requires
        g.wf(n),
        0 <= i < g.spec_tiles().len(),
    ensures
        g.spec_tiles()[i]@.next(
            ChannelMessage::GameStateChanged(GameState::Init),
            g.spec_tiles()[i].spec_bounding_box(),
        ).0 == (TileState {
            is_revealed: false,
            is_mine: g.spec_minefield().mine_set().contains(i as u16),
            is_flagged: false,
            adjacent_mines: mines_among(g.options().neighbors(i), g.spec_minefield().mine_set()) as u8,
            adjacent_flags: 0,
            flag_remaining: true,
            is_game_over: false,
        }),
        mines_among(g.options().neighbors(i), g.spec_minefield().mine_set()) <= 8,
{
    assert(g.tile_matches_minefield(i));
    lemma_neighbors_on_board(g.options(), i);
    crate::minefield::lemma_mines_among_bound(g.options().neighbors(i), g.spec_minefield().mine_set());
}

impl crate::exchange::Sprite for Grid {
}

} // verus!
