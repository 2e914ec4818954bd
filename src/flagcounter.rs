use vstd::prelude::*;
use crate::draw::{render_digit, three_digits, Draw, Image};
use crate::exchange::{Exchange, MessageExchange};
use crate::layout::Layout;
use crate::message::{ChannelMessage, GameState};
use crate::network::{deliver_all, Network};
use crate::wiring::ChannelWiring;

verus! {

/// The flag counter's reaction to `m` when `flags` flags remain of a budget
/// of `mines`: the new count and what it broadcasts. The budget is announced
/// as exhausted when the count falls to zero, and as available again when it
/// climbs back to one.
pub open spec fn flag_step(flags: i16, mines: i16, m: ChannelMessage) -> (i16, Seq<ChannelMessage>) {
    match m {
        ChannelMessage::GameStateChanged(GameState::Init) => (mines, Seq::empty()),
        ChannelMessage::Flagged(true) => {
            let f = if flags > i16::MIN { (flags - 1) as i16 } else { flags };
            (f, if f == 0 { seq![ChannelMessage::FlagStateChanged(true)] } else { Seq::empty() })
        },
        ChannelMessage::Flagged(false) => {
            let f = if flags < i16::MAX { (flags + 1) as i16 } else { flags };
            (f, if f == 1 { seq![ChannelMessage::FlagStateChanged(false)] } else { Seq::empty() })
        },
        _ => (flags, Seq::empty()),
    }
}

/// The count after each of `ms` in turn.
pub open spec fn flag_run(flags: i16, mines: i16, ms: Seq<ChannelMessage>) -> i16
    decreases ms.len(),
{
    if ms.len() == 0 {
        flags
    } else {
        flag_step(flag_run(flags, mines, ms.drop_last()), mines, ms.last()).0
    }
}

/// Everything broadcast while handling each of `ms` in turn.
pub open spec fn flag_sent(flags: i16, mines: i16, ms: Seq<ChannelMessage>) -> Seq<ChannelMessage>
    decreases ms.len(),
{
    if ms.len() == 0 {
        Seq::empty()
    } else {
        flag_sent(flags, mines, ms.drop_last()) + flag_step(
            flag_run(flags, mines, ms.drop_last()),
            mines,
            ms.last(),
        ).1
    }
}

/// The number shown on a panel for a count that may be negative.
pub open spec fn shown(value: int) -> nat {
    if value < 0 { 0 } else { value as nat }
}

/// The draws of a three-digit panel at `panel` showing `value`: the panel,
/// then the ones, tens and hundreds digits in their slots.
pub open spec fn panel_draws(panel: crate::rect::Rect, slots: Seq<crate::rect::Rect>, value: nat) -> Seq<Draw> {
    let (h, t, o) = three_digits(value);
    seq![
        Draw { image: Image::DigitPanel, dst: panel },
        Draw { image: Image::Digit(o as u8), dst: slots[2] },
        Draw { image: Image::Digit(t as u8), dst: slots[1] },
        Draw { image: Image::Digit(h as u8), dst: slots[0] },
    ]
}

/// Counts the flags that remain of the budget, one per mine.
#[derive(Debug)]
pub struct FlagCounter {
    layout: Layout,
    flags: i16,
    exchange: Exchange,
}

impl FlagCounter {
    pub closed spec fn spec_layout(&self) -> Layout {
        self.layout
    }

    pub closed spec fn spec_flags(&self) -> i16 {
        self.flags
    }

    pub closed spec fn spec_exchange(&self) -> Exchange {
        self.exchange
    }

    pub open spec fn budget(&self) -> i16 {
        self.spec_layout().options.mines
    }

    /// A counter at the full budget, on the links wired for `id`.
    pub fn new(layout: Layout, wiring: &mut ChannelWiring, id: usize) -> (r: FlagCounter)
        requires
            old(wiring).wf(),
        ensures
            final(wiring).wf(),
            final(wiring).queues().len() == old(wiring).queues().len(),
            final(wiring).links() == old(wiring).links().remove(id),
            final(wiring).receivers() == old(wiring).receivers().remove(id),
            final(wiring).transports() == old(wiring).transports(),
            r.spec_layout() == layout,
            r.spec_flags() == layout.options.mines,
            r.spec_exchange().within(old(wiring).queues().len()),
            r.spec_exchange().outbound() == old(wiring).outbound_of(id),
            r.spec_exchange().inbound() == old(wiring).inbound_of(id),
            r.spec_exchange().buffered() == Seq::<ChannelMessage>::empty(),
    {
        FlagCounter {
            layout,
            flags: layout.options.mines(),
            exchange: Exchange::new_from_wiring(wiring, id),
        }
    }

    /// Flags that remain.
    pub fn flags(&self) -> (r: i16)
        ensures
            r == self.spec_flags(),
    {
        self.flags
    }

    /// Handles one message; returns what to broadcast.
    pub fn react(&mut self, message: ChannelMessage) -> (r: Vec<ChannelMessage>)
        ensures
            (final(self).spec_flags(), r@) == flag_step(old(self).spec_flags(), old(self).budget(), message),
            final(self).spec_layout() == old(self).spec_layout(),
            final(self).spec_exchange() == old(self).spec_exchange(),
    {
        let mut out: Vec<ChannelMessage> = Vec::new();
        match message {
            ChannelMessage::GameStateChanged(GameState::Init) => {
                self.flags = self.layout.options.mines();
            },
            ChannelMessage::Flagged(true) => {
                if self.flags > i16::MIN {
                    self.flags = self.flags - 1;
                }
                if self.flags == 0 {
                    out.push(ChannelMessage::FlagStateChanged(true));
                }
            },
            ChannelMessage::Flagged(false) => {
                if self.flags < i16::MAX {
                    self.flags = self.flags + 1;
                }
                if self.flags == 1 {
                    out.push(ChannelMessage::FlagStateChanged(false));
                }
            },
            _ => {},
        }
        assert(out@ =~= flag_step(old(self).spec_flags(), old(self).budget(), message).1);
        out
    }

    /// Receives what is waiting and reacts to each message in turn,
    /// broadcasting what each gives; returns how many messages were received.
    pub fn pull(&mut self, net: &mut Network) -> (count: usize)
        requires
            old(self).spec_exchange().within(old(net)@.len()),
        ensures
            final(net)@.len() == old(net)@.len(),
            final(self).spec_flags() == flag_run(
                old(self).spec_flags(),
                old(self).budget(),
                old(self).spec_exchange().received(old(net)@),
            ),
            final(net)@ == deliver_all(
                old(self).spec_exchange().drained(old(net)@),
                old(self).spec_exchange().outbound(),
                flag_sent(old(self).spec_flags(), old(self).budget(), old(self).spec_exchange().received(old(net)@)),
            ),
            count == old(self).spec_exchange().received(old(net)@).len() - old(self).spec_exchange().buffered().len(),
            final(self).spec_layout() == old(self).spec_layout(),
            final(self).spec_exchange().outbound() == old(self).spec_exchange().outbound(),
            final(self).spec_exchange().inbound() == old(self).spec_exchange().inbound(),
            final(self).spec_exchange().buffered() == Seq::<ChannelMessage>::empty(),
    {
        let ghost ex0 = self.exchange;
        let count = self.exchange.pull(net);
        let messages = self.exchange.get_messages();
        let ghost ms = messages@;
        assert(ms =~= ex0.received(old(net)@));
        let ghost f0 = self.flags;
        let ghost q0 = net@;
        let mut i: usize = 0;
        while i < messages.len()
            invariant
                i <= ms.len(),
                messages@ == ms,
                self.layout == old(self).layout,
                self.exchange.outbound() == ex0.outbound(),
                self.exchange.inbound() == ex0.inbound(),
                self.exchange.buffered() == Seq::<ChannelMessage>::empty(),
                self.exchange.within(q0.len()),
                net@.len() == q0.len(),
                self.flags == flag_run(f0, self.layout.options.mines, ms.take(i as int)),
                net@ == deliver_all(q0, ex0.outbound(), flag_sent(f0, self.layout.options.mines, ms.take(i as int))),
            decreases ms.len() - i,
        {
            let out = self.react(messages[i]);
            self.exchange.push_messages(net, &out);
            proof {
                let t = ms.take(i + 1);
                assert(t.drop_last() =~= ms.take(i as int));
                crate::network::lemma_deliver_all_concat(
                    q0,
                    ex0.outbound(),
                    flag_sent(f0, self.layout.options.mines, ms.take(i as int)),
                    out@,
                );
            }
            i += 1;
        }
        assert(ms.take(ms.len() as int) =~= ms);
        count
    }

    pub open spec fn render_spec(&self) -> Seq<Draw> {
        panel_draws(
            Layout::spec_panel(self.spec_layout().constants.panel_offset as int, crate::layout::FLAG_TOP as int),
            Seq::new(3, |p: int| Layout::spec_digit(
                self.spec_layout().constants.panel_offset as int,
                crate::layout::FLAG_TOP as int,
                p,
            )),
            shown(self.spec_flags() as int),
        )
    }

    /// The panel, then the ones, tens and hundreds of the remaining flags
    /// (none shown below zero).
    pub fn render(&self) -> (r: Vec<Draw>)
        requires
            self.spec_layout().wf(),
        ensures
            r@ == panel_draws(
                Layout::spec_panel(self.spec_layout().constants.panel_offset as int, crate::layout::FLAG_TOP as int),
                Seq::new(3, |p: int| Layout::spec_digit(
                    self.spec_layout().constants.panel_offset as int,
                    crate::layout::FLAG_TOP as int,
                    p,
                )),
                shown(self.spec_flags() as int),
            ),
    {
        let value: u64 = if self.flags < 0 { 0 } else { self.flags as u64 };
        let ones = value % 10;
        let tens = value / 10 % 10;
        let hundreds = value / 100 % 10;
        let mut r: Vec<Draw> = Vec::new();
        r.push(Draw { image: Image::DigitPanel, dst: self.layout.flag_digit_panel() });
        r.push(render_digit(ones, self.layout.flag_digit(2)));
        r.push(render_digit(tens, self.layout.flag_digit(1)));
        r.push(render_digit(hundreds, self.layout.flag_digit(0)));
        let ghost slots = Seq::new(3, |p: int| Layout::spec_digit(
            self.layout.constants.panel_offset as int,
            crate::layout::FLAG_TOP as int,
            p,
        ));
        assert(slots[0] == Layout::spec_digit(self.layout.constants.panel_offset as int, crate::layout::FLAG_TOP as int, 0));
        assert(r@ =~= panel_draws(
            Layout::spec_panel(self.layout.constants.panel_offset as int, crate::layout::FLAG_TOP as int),
            slots,
            shown(self.flags as int),
        ));
        r
    }
}

impl MessageExchange for FlagCounter {
    open spec fn links_within(&self, n: nat) -> bool {
        self.spec_exchange().within(n)
    }

    fn pull(&mut self, net: &mut Network) -> (count: usize) {
        FlagCounter::pull(self, net)
    }
}

/// Number of `Flagged(placed)` messages among `ms`.
pub open spec fn count_flagged(ms: Seq<ChannelMessage>, placed: bool) -> nat
    decreases ms.len(),
{
    if ms.len() == 0 {
        0
    } else {
        count_flagged(ms.drop_last(), placed) + if ms.last() == ChannelMessage::Flagged(placed) {
            1nat
        } else {
            0nat
        }
    }
}

/// Over messages without a new round, the count is where it started, less
/// the flags placed, plus the flags removed (as long as it stays within
/// `i16`).
pub proof fn lemma_flag_count_tracks(flags: i16, mines: i16, ms: Seq<ChannelMessage>)
    requires
        !ms.contains(ChannelMessage::GameStateChanged(GameState::Init)),
        flags - ms.len() > i16::MIN,
        flags + ms.len() < i16::MAX,
    ensures
        flag_run(flags, mines, ms) == flags - count_flagged(ms, true) + count_flagged(ms, false),
        count_flagged(ms, true) + count_flagged(ms, false) <= ms.len(),
    decreases ms.len(),
{
    if ms.len() > 0 {
        let rest = ms.drop_last();
        if rest.contains(ChannelMessage::GameStateChanged(GameState::Init)) {
            let k = choose|k: int| 0 <= k < rest.len() && rest[k] == ChannelMessage::GameStateChanged(GameState::Init);
            assert(ms[k] == rest[k]);
        }
        lemma_flag_count_tracks(flags, mines, rest);
        assert(ms.last() == ms[ms.len() - 1]);
    }
}

/// How many times `x` occurs in `s`.
pub open spec fn occurrences(s: Seq<ChannelMessage>, x: ChannelMessage) -> nat
    decreases s.len(),
{
    if s.len() == 0 {
        0
    } else {
        occurrences(s.drop_last(), x) + if s.last() == x { 1nat } else { 0nat }
    }
}

/// The steps among `ms` that take the count from one to zero.
pub open spec fn exhaustions(flags: i16, mines: i16, ms: Seq<ChannelMessage>) -> nat
    decreases ms.len(),
{
    if ms.len() == 0 {
        0
    } else {
        exhaustions(flags, mines, ms.drop_last()) + if ms.last() == ChannelMessage::Flagged(true) && flag_run(
            flags,
            mines,
            ms.drop_last(),
        ) == 1 {
            1nat
        } else {
            0nat
        }
    }
}

proof fn lemma_occurrences_concat(s: Seq<ChannelMessage>, t: Seq<ChannelMessage>, x: ChannelMessage)
    ensures
        occurrences(s + t, x) == occurrences(s, x) + occurrences(t, x),
    decreases t.len(),
{
    if t.len() > 0 {
        lemma_occurrences_concat(s, t.drop_last(), x);
        assert((s + t).drop_last() =~= s + t.drop_last());
    } else {
        assert(s + t =~= s);
    }
}

/// Over a whole run of messages, the flag counter announces an exhausted
/// budget exactly once per step that takes the count from one to zero
/// (as long as the count stays within `i16`).
pub proof fn lemma_flag_exhaustion_notices(flags: i16, mines: i16, ms: Seq<ChannelMessage>)
    requires
        i16::MIN + ms.len() < flags,
        flags + ms.len() < i16::MAX,
        i16::MIN < mines < i16::MAX,
        mines - ms.len() > i16::MIN,
        mines + ms.len() < i16::MAX,
    ensures
        occurrences(flag_sent(flags, mines, ms), ChannelMessage::FlagStateChanged(true)) == exhaustions(flags, mines, ms),
    decreases ms.len(),
{
    if ms.len() > 0 {
        let rest = ms.drop_last();
        lemma_flag_exhaustion_notices(flags, mines, rest);
        lemma_run_bounds(flags, mines, rest);
        let f = flag_run(flags, mines, rest);
        lemma_flag_notices(f, mines, ms.last());
        let out = flag_step(f, mines, ms.last()).1;
        lemma_occurrences_concat(flag_sent(flags, mines, rest), out, ChannelMessage::FlagStateChanged(true));
        if out.len() == 1 {
            assert(out.drop_last() =~= Seq::<ChannelMessage>::empty());
            assert(occurrences(out.drop_last(), ChannelMessage::FlagStateChanged(true)) == 0);
            assert(out.contains(out[0]));
            if out.contains(ChannelMessage::FlagStateChanged(true)) {
                assert(out[0] == ChannelMessage::FlagStateChanged(true));
            }
            assert(out.last() == out[0]);
        } else {
            assert(out =~= Seq::<ChannelMessage>::empty());
            assert(!out.contains(ChannelMessage::FlagStateChanged(true)));
        }
        assert(flag_sent(flags, mines, ms) == flag_sent(flags, mines, rest) + out);
    }
}

/// The count moves by at most one per message, or jumps to the budget.
proof fn lemma_run_bounds(flags: i16, mines: i16, ms: Seq<ChannelMessage>)
    requires
        i16::MIN + ms.len() < flags,
        flags + ms.len() < i16::MAX,
        mines - ms.len() > i16::MIN,
        mines + ms.len() < i16::MAX,
    ensures
        i16::MIN < flag_run(flags, mines, ms) < i16::MAX,
    decreases ms.len(),
{
    if ms.len() > 0 {
        lemma_run_bounds(flags, mines, ms.drop_last());
        lemma_run_near(flags, mines, ms.drop_last());
    }
    lemma_run_near(flags, mines, ms);
}

/// Each value the count takes lies within the number of messages of where
/// it started or of the budget.
proof fn lemma_run_near(flags: i16, mines: i16, ms: Seq<ChannelMessage>)
    ensures
        (flags - ms.len() <= flag_run(flags, mines, ms) <= flags + ms.len()) || (mines - ms.len()
            <= flag_run(flags, mines, ms) <= mines + ms.len()),
    decreases ms.len(),
{
    if ms.len() > 0 {
        lemma_run_near(flags, mines, ms.drop_last());
    }
}

/// The notice that the budget is exhausted goes out on a step exactly when
/// that step takes the count from one to zero, so never while it is already
/// zero; the notice that it is available again goes out exactly when a step
/// takes the count from zero to one.
pub proof fn lemma_flag_notices(flags: i16, mines: i16, m: ChannelMessage)
    requires
        i16::MIN < flags < i16::MAX,
    ensures
        flag_step(flags, mines, m).1.contains(ChannelMessage::FlagStateChanged(true)) <==> (m
            == ChannelMessage::Flagged(true) && flags == 1),
        flag_step(flags, mines, m).1.contains(ChannelMessage::FlagStateChanged(false)) <==> (m
            == ChannelMessage::Flagged(false) && flags == 0),
        flag_step(flags, mines, m).1.len() <= 1,
{
    let out = flag_step(flags, mines, m).1;
    if out.len() == 1 {
        assert(out.contains(out[0]));
    }
}

impl crate::exchange::Sprite for FlagCounter {
}

/// Handling `a` and then `b` is handling `a + b`.
pub proof fn lemma_flag_run_concat(flags: i16, mines: i16, a: Seq<ChannelMessage>, b: Seq<ChannelMessage>)
    ensures
        flag_run(flags, mines, a + b) == flag_run(flag_run(flags, mines, a), mines, b),
    decreases b.len(),
{
    if b.len() == 0 {
        assert(a + b =~= a);
    } else {
        lemma_flag_run_concat(flags, mines, a, b.drop_last());
        assert((a + b).drop_last() =~= a + b.drop_last());
        assert((a + b).last() == b.last());
    }
}

/// After a new round at position `k` of `ms`, with none later, the count is
/// the budget, less the flags placed after it, plus the flags removed after
/// it (as long as it stays within `i16`).
pub proof fn lemma_flag_count_after_new_round(flags: i16, mines: i16, ms: Seq<ChannelMessage>, k: int)
    requires
        0 <= k < ms.len(),
        ms[k] == ChannelMessage::GameStateChanged(GameState::Init),
        forall|j: int| k < j < ms.len() ==> #[trigger] ms[j] != ChannelMessage::GameStateChanged(GameState::Init),
        mines - ms.len() > i16::MIN,
        mines + ms.len() < i16::MAX,
    ensures
        flag_run(flags, mines, ms) == mines - count_flagged(ms.subrange(k + 1, ms.len() as int), true)
            + count_flagged(ms.subrange(k + 1, ms.len() as int), false),
{
    let a = ms.subrange(0, k + 1);
    let b = ms.subrange(k + 1, ms.len() as int);
    assert(ms =~= a + b);
    lemma_flag_run_concat(flags, mines, a, b);
    assert(a.drop_last() =~= ms.subrange(0, k));
    assert(flag_run(flags, mines, a) == mines);
    if b.contains(ChannelMessage::GameStateChanged(GameState::Init)) {
        let j = choose|j: int| 0 <= j < b.len() && b[j] == ChannelMessage::GameStateChanged(GameState::Init);
        assert(ms[k + 1 + j] == b[j]);
    }
    lemma_flag_count_tracks(mines, mines, b);
}

} // verus!
