use vstd::prelude::*;
use std::time::SystemTime;
use crate::draw::{render_digit, Draw, Image};
use crate::exchange::{Exchange, MessageExchange};
use crate::flagcounter::panel_draws;
use crate::layout::{Layout, TIMER_TOP};
use crate::message::{ChannelMessage, Error, GameState};
use crate::network::Network;
use crate::wiring::ChannelWiring;

verus! {

#[verifier::external_type_specification]
#[verifier::external_body]
pub struct ExSystemTime(SystemTime);

/// Relies on std::time::SystemTime::now: the time that the system clock
/// reads. Nothing is promised of the value.
pub assume_specification[ std::time::SystemTime::now ]() -> SystemTime;

/// Relies on std::time::SystemTime::elapsed: the whole seconds from `start`
/// to now, or None when the clock now reads earlier than `start`. Nothing is
/// promised of the value.
#[verifier::external_body]
fn seconds_since(start: &SystemTime) -> (r: Option<u64>) {
    match start.elapsed() {
        Ok(d) => Some(d.as_secs()),
        Err(_) => None,
    }
}

/// Whether the counter runs after `m`, when it ran before iff `running`.
/// It starts when the round starts, stops when the round ends and is idle
/// while a new round waits for its first reveal.
pub open spec fn runs_after(running: bool, m: ChannelMessage) -> bool {
    match m {
        ChannelMessage::GameStateChanged(GameState::Init) => false,
        ChannelMessage::GameStateChanged(GameState::Playing) => true,
        ChannelMessage::GameStateChanged(GameState::Win) => false,
        ChannelMessage::GameStateChanged(GameState::Lose) => false,
        _ => running,
    }
}

pub open spec fn runs_after_all(running: bool, ms: Seq<ChannelMessage>) -> bool
    decreases ms.len(),
{
    if ms.len() == 0 {
        running
    } else {
        runs_after(runs_after_all(running, ms.drop_last()), ms.last())
    }
}

/// The recorded seconds after `m`, when they were `e` before: zero on a new
/// round, read from the clock when the round ends (`None`: whatever the
/// clock gives), unchanged otherwise.
pub open spec fn recorded_after(e: Option<u64>, m: ChannelMessage) -> Option<u64> {
    match m {
        ChannelMessage::GameStateChanged(GameState::Init) => Some(0),
        ChannelMessage::GameStateChanged(GameState::Win) => None,
        ChannelMessage::GameStateChanged(GameState::Lose) => None,
        _ => e,
    }
}

pub open spec fn recorded_after_all(e: Option<u64>, ms: Seq<ChannelMessage>) -> Option<u64>
    decreases ms.len(),
{
    if ms.len() == 0 {
        e
    } else {
        recorded_after(recorded_after_all(e, ms.drop_last()), ms.last())
    }
}

/// Whether a failed clock read is on record after `m`, when `failed` was
/// before: a new round clears it, the end of a round sets it anew (`None`:
/// as the clock decides), anything else keeps it.
pub open spec fn failure_after(failed: Option<bool>, m: ChannelMessage) -> Option<bool> {
    match m {
        ChannelMessage::GameStateChanged(GameState::Init) => Some(false),
        ChannelMessage::GameStateChanged(GameState::Win) => None,
        ChannelMessage::GameStateChanged(GameState::Lose) => None,
        _ => failed,
    }
}

pub open spec fn failure_after_all(failed: Option<bool>, ms: Seq<ChannelMessage>) -> Option<bool>
    decreases ms.len(),
{
    if ms.len() == 0 {
        failed
    } else {
        failure_after(failure_after_all(failed, ms.drop_last()), ms.last())
    }
}

/// The draws of the elapsed-time panel showing `value` seconds.
pub open spec fn timer_draws(layout: Layout, value: nat) -> Seq<Draw> {
    panel_draws(
        Layout::spec_panel(layout.timer_panel_left(), TIMER_TOP as int),
        Seq::new(3, |p: int| Layout::spec_digit(layout.timer_panel_left(), TIMER_TOP as int, p)),
        value,
    )
}

/// Counts the seconds of a round.
#[derive(Debug)]
pub struct TimeCounter {
    elapsed: u64,
    running: bool,
    /// The clock read at the end of the round failed.
    clock_failed: bool,
    start: SystemTime,
    exchange: Exchange,
}

impl TimeCounter {
    pub closed spec fn spec_elapsed(&self) -> u64 {
        self.elapsed
    }

    pub closed spec fn spec_running(&self) -> bool {
        self.running
    }

    pub closed spec fn spec_clock_failed(&self) -> bool {
        self.clock_failed
    }

    pub closed spec fn spec_exchange(&self) -> Exchange {
        self.exchange
    }

    /// An idle counter at zero, on the links wired for `id`.
    pub fn new(wiring: &mut ChannelWiring, id: usize) -> (r: Self)
        requires
            old(wiring).wf(),
        ensures
            final(wiring).wf(),
            final(wiring).queues().len() == old(wiring).queues().len(),
            final(wiring).links() == old(wiring).links().remove(id),
            final(wiring).receivers() == old(wiring).receivers().remove(id),
            final(wiring).transports() == old(wiring).transports(),
            r.spec_elapsed() == 0,
            !r.spec_running(),
            !r.spec_clock_failed(),
            r.consistent(),
            r.spec_exchange().within(old(wiring).queues().len()),
            r.spec_exchange().outbound() == old(wiring).outbound_of(id),
            r.spec_exchange().inbound() == old(wiring).inbound_of(id),
            r.spec_exchange().buffered() == Seq::<ChannelMessage>::empty(),
    {
        Self {
            elapsed: 0,
            running: false,
            clock_failed: false,
            start: SystemTime::now(),
            exchange: Exchange::new_from_wiring(wiring, id),
        }
    }

    pub fn is_running(&self) -> (r: bool)
        ensures
            r == self.spec_running(),
    {
        self.running
    }

    /// A failed clock read is on record with zero seconds.
    pub open spec fn consistent(&self) -> bool {
        self.spec_clock_failed() ==> self.spec_elapsed() == 0
    }

    /// Records the end of a round, given the whole seconds the clock read
    /// since the start, or `None` when the read failed.
    pub fn record_end(&mut self, seconds: Option<u64>)
        ensures
            final(self).spec_elapsed() == match seconds {
                Some(s) => s,
                None => 0,
            },
            final(self).spec_clock_failed() == (seconds is None),
            final(self).spec_running() == old(self).spec_running(),
            final(self).spec_exchange() == old(self).spec_exchange(),
            final(self).consistent(),
    {
        match seconds {
            Some(s) => {
                self.elapsed = s;
                self.clock_failed = false;
            },
            None => {
                self.elapsed = 0;
                self.clock_failed = true;
            },
        }
    }

    /// Handles one message: zero on a new round, start the clock when the
    /// round starts, record the whole seconds when it ends. A failed clock
    /// read at the end is recorded, with zero seconds, and reported when the
    /// counter is drawn.
    pub fn react(&mut self, message: ChannelMessage)
        requires
            old(self).consistent(),
        ensures
            final(self).consistent(),
            final(self).spec_running() == runs_after(old(self).spec_running(), message),
            recorded_after(Some(old(self).spec_elapsed()), message) matches Some(v) ==> final(self).spec_elapsed() == v,
            failure_after(Some(old(self).spec_clock_failed()), message) matches Some(f) ==> final(self).spec_clock_failed() == f,
            final(self).spec_exchange() == old(self).spec_exchange(),
    {
        match message {
            ChannelMessage::GameStateChanged(GameState::Init) => {
                self.running = false;
                self.elapsed = 0;
                self.clock_failed = false;
            },
            ChannelMessage::GameStateChanged(GameState::Playing) => {
                self.running = true;
                self.start = SystemTime::now();
            },
            ChannelMessage::GameStateChanged(GameState::Win) | ChannelMessage::GameStateChanged(
                GameState::Lose,
            ) => {
                self.running = false;
                let seconds = seconds_since(&self.start);
                self.record_end(seconds);
            },
            _ => {},
        }
    }

    /// Receives what is waiting and reacts to each message in turn; returns
    /// how many messages were received. The counter sends nothing.
    pub fn pull(&mut self, net: &mut Network) -> (count: usize)
        requires
            old(self).spec_exchange().within(old(net)@.len()),
            old(self).consistent(),
        ensures
            final(self).consistent(),
            final(net)@ == old(self).spec_exchange().drained(old(net)@),
            final(self).spec_running() == runs_after_all(
                old(self).spec_running(),
                old(self).spec_exchange().received(old(net)@),
            ),
            recorded_after_all(Some(old(self).spec_elapsed()), old(self).spec_exchange().received(old(net)@))
                matches Some(v) ==> final(self).spec_elapsed() == v,
            failure_after_all(Some(old(self).spec_clock_failed()), old(self).spec_exchange().received(old(net)@))
                matches Some(f) ==> final(self).spec_clock_failed() == f,
            count == old(self).spec_exchange().received(old(net)@).len() - old(self).spec_exchange().buffered().len(),
            final(self).spec_exchange().outbound() == old(self).spec_exchange().outbound(),
            final(self).spec_exchange().inbound() == old(self).spec_exchange().inbound(),
            final(self).spec_exchange().buffered() == Seq::<ChannelMessage>::empty(),
    {
        let ghost ex0 = self.exchange;
        let count = self.exchange.pull(net);
        let messages = self.exchange.get_messages();
        let ghost ms = messages@;
        assert(ms =~= ex0.received(old(net)@));
        let ghost r0 = self.running;
        let ghost e0 = self.elapsed;
        let ghost f0 = self.clock_failed;
        let mut i: usize = 0;
        while i < messages.len()
            invariant
                i <= ms.len(),
                messages@ == ms,
                self.exchange.outbound() == ex0.outbound(),
                self.exchange.inbound() == ex0.inbound(),
                self.exchange.buffered() == Seq::<ChannelMessage>::empty(),
                self.running == runs_after_all(r0, ms.take(i as int)),
                self.consistent(),
                recorded_after_all(Some(e0), ms.take(i as int)) matches Some(v) ==> self.elapsed == v,
                failure_after_all(Some(f0), ms.take(i as int)) matches Some(f) ==> self.clock_failed == f,
            decreases ms.len() - i,
        {
            self.react(messages[i]);
            proof {
                assert(ms.take(i + 1).drop_last() =~= ms.take(i as int));
            }
            i += 1;
        }
        assert(ms.take(ms.len() as int) =~= ms);
        count
    }

    /// The seconds to show: read from the clock while running, the recorded
    /// ones otherwise. Fails when the clock reads, or read at the end of the
    /// round, earlier than the start.
    pub fn displayed_seconds(&self) -> (r: Result<u64, Error>)
        ensures
            !self.spec_running() && !self.spec_clock_failed() ==> r == Ok::<u64, Error>(self.spec_elapsed()),
            !self.spec_running() && self.spec_clock_failed() ==> r == Err::<u64, Error>(Error::StartTimeInvalid),
            r is Err ==> r->Err_0 == Error::StartTimeInvalid,
    {
        if self.running {
            match seconds_since(&self.start) {
                Some(s) => Ok(s),
                None => Err(Error::StartTimeInvalid),
            }
        } else if self.clock_failed {
            Err(Error::StartTimeInvalid)
        } else {
            Ok(self.elapsed)
        }
    }

    /// The panel, then the ones, tens and hundreds of the seconds shown.
    pub fn render(&self, layout: &Layout) -> (r: Result<Vec<Draw>, Error>)
        requires
            layout.wf(),
        ensures
            r is Ok ==> r->Ok_0@.len() == 4,
            r is Ok ==> exists|s: u64| r->Ok_0@ == #[trigger] timer_draws(*layout, s as nat),
            r is Err ==> r->Err_0 == Error::StartTimeInvalid,
            !self.spec_running() && !self.spec_clock_failed() ==> r is Ok && r->Ok_0@ == timer_draws(
                *layout,
                self.spec_elapsed() as nat,
            ),
            !self.spec_running() && self.spec_clock_failed() ==> r is Err,
    {
        match self.displayed_seconds() {
            Ok(seconds) => {
                let d = render_timer(layout, seconds);
                assert(d@ == timer_draws(*layout, seconds as nat));
                Ok(d)
            },
            Err(e) => Err(e),
        }
    }
}

/// The elapsed-time panel showing `seconds`.
pub fn render_timer(layout: &Layout, seconds: u64) -> (r: Vec<Draw>)
    requires
        layout.wf(),
    ensures
        r@ == timer_draws(*layout, seconds as nat),
{
    let ones = seconds % 10;
    let tens = seconds / 10 % 10;
    let hundreds = seconds / 100 % 10;
    let mut r: Vec<Draw> = Vec::new();
    r.push(Draw { image: Image::DigitPanel, dst: layout.timer_digit_panel() });
    r.push(render_digit(ones, layout.timer_digit(2)));
    r.push(render_digit(tens, layout.timer_digit(1)));
    r.push(render_digit(hundreds, layout.timer_digit(0)));
    let ghost slots = Seq::new(3, |p: int| Layout::spec_digit(layout.timer_panel_left(), TIMER_TOP as int, p));
    assert(slots[0] == Layout::spec_digit(layout.timer_panel_left(), TIMER_TOP as int, 0));
    assert(r@ =~= timer_draws(*layout, seconds as nat));
    r
}

impl MessageExchange for TimeCounter {
    open spec fn links_within(&self, n: nat) -> bool {
        self.spec_exchange().within(n) && self.consistent()
    }

    fn pull(&mut self, net: &mut Network) -> (count: usize) {
        TimeCounter::pull(self, net)
    }
}

impl crate::exchange::Sprite for TimeCounter {
}

} // verus!
