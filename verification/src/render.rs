//! The display side: the levels last seen, the bars drawn from them, and the
//! decisions of the render loop.
//!
//! The loop itself runs outside this library. On each tick it calls
//! `RenderLoop::poll`, draws the bars it gets back, waits a moment for input,
//! and hands the outcome to `RenderLoop::step`, which says whether to go on
//! or to release the display. `RenderLoop::tick` is `poll` without the
//! polling: it takes what the channels gave and says exactly what is shown.

use crate::channel::receive_all;
use crate::channel::LevelReceiver;
use crate::level::bar_of;
use crate::level::bar_value;
use crate::level::SILENCE;
use vstd::prelude::*;

verus! {

/// The levels after channel `ch` was polled with the result `fresh`: a fresh
/// level takes the place of the last one, and an underrun changes nothing.
pub open spec fn observed(levels: Seq<i32>, ch: int, fresh: Option<i32>) -> Seq<i32> {
    match fresh {
        Some(level) if 0 <= ch < levels.len() => levels.update(ch, level),
        _ => levels,
    }
}

/// The levels after one tick in which channel `i` was polled with the result
/// `fresh[i]`; a channel that `fresh` does not reach keeps its level.
pub open spec fn absorbed(levels: Seq<i32>, fresh: Seq<Option<i32>>) -> Seq<i32> {
    Seq::new(
        levels.len(),
        |i: int|
            if i < fresh.len() && fresh[i] is Some {
                fresh[i]->Some_0
            } else {
                levels[i]
            },
    )
}

/// The levels after the ticks of `ticks`, in order.
pub open spec fn after_ticks(levels: Seq<i32>, ticks: Seq<Seq<Option<i32>>>) -> Seq<i32>
    decreases ticks.len(),
{
    if ticks.len() == 0 {
        levels
    } else {
        absorbed(after_ticks(levels, ticks.drop_last()), ticks.last())
    }
}

/// No channel of the tick had a fresh level.
pub open spec fn starved(fresh: Seq<Option<i32>>) -> bool {
    forall|i: int| 0 <= i < fresh.len() ==> fresh[i] is None
}

/// The bar values of a sequence of levels.
pub open spec fn bars_of(levels: Seq<i32>) -> Seq<u64> {
    Seq::new(levels.len(), |i: int| bar_of(levels[i]))
}

/// The level last seen on each channel.
pub struct DisplayState {
    levels: Vec<i32>,
}

impl DisplayState {
    /// The levels, by channel.
    pub closed spec fn levels(self) -> Seq<i32> {
        self.levels@
    }

    /// A state of `channels` channels, each silent until a level arrives.
    pub fn new(channels: usize) -> (state: DisplayState)
        ensures
            state.levels() == Seq::new(channels as nat, |i: int| SILENCE),
    {
        let mut levels: Vec<i32> = Vec::new();
        let mut i: usize = 0;
        while i < channels
            invariant
                i <= channels,
                levels@ == Seq::new(i as nat, |j: int| SILENCE),
            decreases channels - i,
        {
            levels.push(SILENCE);
            i = i + 1;
            assert(levels@ =~= Seq::new(i as nat, |j: int| SILENCE));
        }
        DisplayState { levels }
    }

    /// The number of channels.
    pub fn channels(&self) -> (n: usize)
        ensures
            n == self.levels().len(),
    {
        self.levels.len()
    }

    /// The level last seen on channel `ch`, or `None` where there is no such channel.
    pub fn level(&self, ch: usize) -> (level: Option<i32>)
        ensures
            level == if ch < self.levels().len() {
                Some(self.levels()[ch as int])
            } else {
                None
            },
    {
        if ch < self.levels.len() {
            Some(self.levels[ch])
        } else {
            None
        }
    }

    /// Takes in the result of polling channel `ch`: a fresh level replaces
    /// the last one; an underrun, or a channel that does not exist, changes
    /// nothing.
    pub fn observe(&mut self, ch: usize, fresh: Option<i32>)
        ensures
            final(self).levels() == observed(old(self).levels(), ch as int, fresh),
    {
        match fresh {
            Some(level) => {
                if ch < self.levels.len() {
                    self.levels.set(ch, level);
                }
            },
            None => {},
        }
    }

    /// Takes in the results of polling every channel in one tick.
    pub fn absorb(&mut self, fresh: &[Option<i32>])
        ensures
            final(self).levels() == absorbed(old(self).levels(), fresh@),
    {
        let n = self.levels.len();
        let mut ch: usize = 0;
        while ch < n
            invariant
                ch <= n,
                n == self.levels@.len(),
                n == old(self).levels@.len(),
                forall|i: int|
                    0 <= i < ch ==> self.levels@[i] == absorbed(old(self).levels@, fresh@)[i],
                forall|i: int| ch <= i < n ==> self.levels@[i] == old(self).levels@[i],
            decreases n - ch,
        {
            if ch < fresh.len() {
                self.observe(ch, fresh[ch]);
            }
            ch = ch + 1;
        }
        assert(self.levels@ =~= absorbed(old(self).levels@, fresh@));
    }

    /// The bar value of every channel, in channel order.
    pub fn bars(&self) -> (bars: Vec<u64>)
        ensures
            bars@ == bars_of(self.levels()),
    {
        let mut bars: Vec<u64> = Vec::new();
        let mut ch: usize = 0;
        while ch < self.levels.len()
            invariant
                ch <= self.levels@.len(),
                bars@.len() == ch,
                forall|i: int| 0 <= i < ch ==> bars@[i] == bar_of(self.levels@[i]),
            decreases self.levels@.len() - ch,
        {
            bars.push(bar_value(self.levels[ch]));
            ch = ch + 1;
        }
        assert(bars@ =~= bars_of(self.levels@));
        bars
    }
}

/// A tick without a fresh level on any channel leaves the levels as they were.
pub proof fn lemma_starved_tick(levels: Seq<i32>, fresh: Seq<Option<i32>>)
    requires
        starved(fresh),
    ensures
        absorbed(levels, fresh) == levels,
{
    assert(absorbed(levels, fresh) =~= levels);
}

/// However long the channels stay empty, the levels last seen stay on
/// display: after any number of starved ticks the levels, and so the bars,
/// are those from before.
pub proof fn lemma_starvation_keeps_display(levels: Seq<i32>, ticks: Seq<Seq<Option<i32>>>)
    requires
        forall|t: int| 0 <= t < ticks.len() ==> starved(#[trigger] ticks[t]),
    ensures
        after_ticks(levels, ticks) == levels,
        bars_of(after_ticks(levels, ticks)) == bars_of(levels),
    decreases ticks.len(),
{
    if ticks.len() > 0 {
        lemma_starvation_keeps_display(levels, ticks.drop_last());
        lemma_starved_tick(levels, ticks.last());
    }
}

/// A tick never changes the number of channels on display, and every level
/// shown is a fresh one of this tick or the one shown before.
pub proof fn lemma_tick_shows_fresh_or_last(levels: Seq<i32>, fresh: Seq<Option<i32>>)
    ensures
        absorbed(levels, fresh).len() == levels.len(),
        forall|i: int|
            0 <= i < levels.len() ==> #[trigger] absorbed(levels, fresh)[i] == levels[i] || (i
                < fresh.len() && fresh[i] == Some(absorbed(levels, fresh)[i])),
{
}

/// The rows that one group of bars takes on the surface.
#[derive(Clone, Copy, Debug, PartialEq, Eq, Structural)]
pub struct GroupArea {
    /// The group's first row.
    pub top: u16,
    /// The number of rows, one for each bar.
    pub height: u16,
}

/// The rows of `groups` groups of `bars` bars each, stacked from the top
/// without a gap.
pub open spec fn areas_of(groups: nat, bars: nat) -> Seq<GroupArea> {
    Seq::new(groups, |g: int| (GroupArea { top: (g * bars) as u16, height: bars as u16 }))
}

/// Lays out `groups` groups of `bars` bars each, one row to a bar, stacked
/// from the top. `None` where the rows cannot be counted in sixteen bits.
pub fn group_areas(groups: usize, bars: usize) -> (areas: Option<Vec<GroupArea>>)
    ensures
        areas is Some <==> groups * bars <= u16::MAX,
        areas is Some ==> areas->Some_0@ == areas_of(groups as nat, bars as nat),
{
    let mut areas: Vec<GroupArea> = Vec::new();
    if groups == 0 {
        assert(groups * bars == 0) by (nonlinear_arith)
            requires
                groups == 0,
        ;
        assert(areas@ =~= areas_of(groups as nat, bars as nat));
        return Some(areas);
    }
    if bars > 0xFFFF {
        assert(groups * bars > u16::MAX) by (nonlinear_arith)
            requires
                groups >= 1,
                bars > 0xFFFF,
        ;
        return None;
    }
    let mut top: usize = 0;
    let mut g: usize = 0;
    while g < groups
        invariant
            g <= groups,
            bars <= 0xFFFF,
            top == g * bars,
            top <= u16::MAX,
            areas@ == areas_of(g as nat, bars as nat),
        decreases groups - g,
    {
        assert((g + 1) * bars == g * bars + bars) by (nonlinear_arith);
        if top + bars > 0xFFFF {
            assert(groups * bars > u16::MAX) by (nonlinear_arith)
                requires
                    g + 1 <= groups,
                    (g + 1) * bars > 0xFFFF,
            ;
            return None;
        }
        areas.push(GroupArea { top: top as u16, height: bars as u16 });
        top = top + bars;
        g = g + 1;
        assert(areas@ =~= areas_of(g as nat, bars as nat));
    }
    Some(areas)
}

/// How a key event came about.
#[derive(Clone, Copy, Debug, PartialEq, Eq, Structural)]
pub enum KeyKind {
    Press,
    Repeat,
    Release,
}

/// What drawing a frame and then waiting for input came to.
#[derive(Clone, Copy, Debug, PartialEq, Eq)]
pub enum Polled {
    /// The frame could not be drawn, or the input source failed.
    Failed,
    /// The wait ran out with no input.
    Quiet,
    /// A key event; `symbol` is the key's character where it has one.
    Key { kind: KeyKind, symbol: Option<char> },
    /// Any other input.
    Other,
}

/// Where the render loop stands.
#[derive(Clone, Copy, Debug, PartialEq, Eq, Structural)]
pub enum Phase {
    Running,
    Terminated,
}

/// What the render loop does after a tick.
#[derive(Clone, Copy, Debug, PartialEq, Eq, Structural)]
pub enum Command {
    /// Go on with the next tick.
    Continue,
    /// Release the display now and leave the loop.
    Release,
    /// The display was released before: do nothing more.
    Halt,
}

/// The key that quits: a press of `q`.
pub open spec fn is_quit(polled: Polled) -> bool {
    polled == (Polled::Key { kind: KeyKind::Press, symbol: Some('q') })
}

/// The outcomes that end the loop: the quit key, and a failure.
pub open spec fn ends_loop(polled: Polled) -> bool {
    is_quit(polled) || polled == Polled::Failed
}

/// The phase that follows `phase` on the outcome `polled`.
pub open spec fn next_phase(phase: Phase, polled: Polled) -> Phase {
    if phase == Phase::Running && !ends_loop(polled) {
        Phase::Running
    } else {
        Phase::Terminated
    }
}

/// The command given in `phase` on the outcome `polled`.
pub open spec fn command_for(phase: Phase, polled: Polled) -> Command {
    if phase == Phase::Terminated {
        Command::Halt
    } else if ends_loop(polled) {
        Command::Release
    } else {
        Command::Continue
    }
}

/// The phase reached from `phase` by the outcomes of `trace`, in order.
pub open spec fn phase_after(phase: Phase, trace: Seq<Polled>) -> Phase
    decreases trace.len(),
{
    if trace.len() == 0 {
        phase
    } else {
        next_phase(phase_after(phase, trace.drop_last()), trace.last())
    }
}

/// How often `Release` is given on the way from `phase` through `trace`.
pub open spec fn releases(phase: Phase, trace: Seq<Polled>) -> nat
    decreases trace.len(),
{
    if trace.len() == 0 {
        0
    } else {
        let before = releases(phase, trace.drop_last());
        if command_for(phase_after(phase, trace.drop_last()), trace.last()) == Command::Release {
            before + 1
        } else {
            before
        }
    }
}

/// Whether `polled` is the quit key.
pub fn quit_requested(polled: Polled) -> (quit: bool)
    ensures
        quit == is_quit(polled),
{
    match polled {
        Polled::Key { kind: KeyKind::Press, symbol: Some(c) } => c == 'q',
        _ => false,
    }
}

/// The render loop's state: its phase and the levels on display.
pub struct RenderLoop {
    phase: Phase,
    display: DisplayState,
}

impl RenderLoop {
    /// Where the loop stands.
    pub closed spec fn phase(self) -> Phase {
        self.phase
    }

    /// The levels on display, by channel.
    pub closed spec fn levels(self) -> Seq<i32> {
        self.display.levels()
    }

    /// A running loop of `channels` channels, each silent until a level arrives.
    pub fn new(channels: usize) -> (meter: RenderLoop)
        ensures
            meter.phase() == Phase::Running,
            meter.levels() == Seq::new(channels as nat, |i: int| SILENCE),
    {
        RenderLoop { phase: Phase::Running, display: DisplayState::new(channels) }
    }

    /// Whether the loop is still running.
    pub fn is_running(&self) -> (running: bool)
        ensures
            running == (self.phase() == Phase::Running),
    {
        match self.phase {
            Phase::Running => true,
            Phase::Terminated => false,
        }
    }

    /// The level on display for channel `ch`, or `None` where there is no such channel.
    pub fn level(&self, ch: usize) -> (level: Option<i32>)
        ensures
            level == if ch < self.levels().len() {
                Some(self.levels()[ch as int])
            } else {
                None
            },
    {
        self.display.level(ch)
    }

    /// The first half of a tick. `fresh[i]` is what channel `i` gave when it
    /// was polled. While the loop runs, the fresh levels are taken in, a
    /// starved channel keeps its last level, and the bars to draw are
    /// returned; once it has ended nothing changes and there is nothing to draw.
    pub fn tick(&mut self, fresh: &[Option<i32>]) -> (bars: Option<Vec<u64>>)
        ensures
            final(self).phase() == old(self).phase(),
            old(self).phase() == Phase::Running ==> final(self).levels() == absorbed(
                old(self).levels(),
                fresh@,
            ) && bars is Some && bars->Some_0@ == bars_of(final(self).levels()),
            old(self).phase() == Phase::Terminated ==> final(self).levels() == old(self).levels()
                && bars is None,
    {
        match self.phase {
            Phase::Running => {
                self.display.absorb(fresh);
                Some(self.display.bars())
            },
            Phase::Terminated => None,
        }
    }

    /// The first half of a tick, polling included: while the loop runs, every
    /// receiving half is polled once and what came is taken in as `tick`
    /// does. A channel whose half knows a level to wait shows the oldest of
    /// them, and the half knows the rest to wait still. What the other
    /// halves give depends on the sending side; whatever it is, the levels
    /// on display are those of a tick on some outcome of polling, a channel
    /// without a receiving half keeps its level, and the bars returned are
    /// those of the levels now on display. Once the loop has ended nothing
    /// is polled.
    pub fn poll(&mut self, receivers: &mut Vec<LevelReceiver>) -> (bars: Option<Vec<u64>>)
        ensures
            final(self).phase() == old(self).phase(),
            final(receivers)@.len() == old(receivers)@.len(),
            old(self).phase() == Phase::Running ==> {
                &&& bars is Some
                &&& bars->Some_0@ == bars_of(final(self).levels())
                &&& final(self).levels().len() == old(self).levels().len()
                &&& forall|ch: int|
                    #![trigger final(self).levels()[ch]]
                    #![trigger final(receivers)@[ch]]
                    0 <= ch < old(receivers)@.len() && ch < old(self).levels().len()
                        && old(receivers)@[ch].waiting().len() > 0 ==> final(self).levels()[ch]
                        == old(receivers)@[ch].waiting()[0] && final(receivers)@[ch].waiting()
                        == old(receivers)@[ch].waiting().skip(1)
                &&& forall|ch: int|
                    old(receivers)@.len() <= ch < old(self).levels().len()
                        ==> final(self).levels()[ch] == old(self).levels()[ch]
                &&& exists|fresh: Seq<Option<i32>>|
                    fresh.len() == old(receivers)@.len() && final(self).levels() == #[trigger]
                    absorbed(old(self).levels(), fresh)
            },
            old(self).phase() == Phase::Terminated ==> {
                &&& bars is None
                &&& final(self).levels() == old(self).levels()
                &&& final(receivers)@ == old(receivers)@
            },
    {
        match self.phase {
            Phase::Running => {
                let fresh = receive_all(receivers);
                self.tick(fresh.as_slice())
            },
            Phase::Terminated => None,
        }
    }

    /// The second half of a tick: takes the outcome of drawing and waiting
    /// for input, and says what to do. The quit key and a failure end a
    /// running loop, with the one command to release the display; anything
    /// else lets it go on. A loop that has ended stays so and only halts.
    pub fn step(&mut self, polled: Polled) -> (command: Command)
        ensures
            final(self).phase() == next_phase(old(self).phase(), polled),
            command == command_for(old(self).phase(), polled),
            final(self).levels() == old(self).levels(),
    {
        match self.phase {
            Phase::Terminated => Command::Halt,
            Phase::Running => {
                let failed = match polled {
                    Polled::Failed => true,
                    _ => false,
                };
                if failed || quit_requested(polled) {
                    self.phase = Phase::Terminated;
                    Command::Release
                } else {
                    Command::Continue
                }
            },
        }
    }
}

/// Once ended, the loop stays ended and gives no further release.
pub proof fn lemma_terminated_is_final(trace: Seq<Polled>)
    ensures
        phase_after(Phase::Terminated, trace) == Phase::Terminated,
        releases(Phase::Terminated, trace) == 0,
    decreases trace.len(),
{
    if trace.len() > 0 {
        lemma_terminated_is_final(trace.drop_last());
    }
}

/// Whatever the outcomes, a loop that started running releases the display
/// exactly once if it has ended, and not at all while it runs.
pub proof fn lemma_release_exactly_once(trace: Seq<Polled>)
    ensures
        phase_after(Phase::Running, trace) == Phase::Terminated ==> releases(
            Phase::Running,
            trace,
        ) == 1,
        phase_after(Phase::Running, trace) == Phase::Running ==> releases(Phase::Running, trace)
            == 0,
    decreases trace.len(),
{
    if trace.len() > 0 {
        lemma_release_exactly_once(trace.drop_last());
    }
}

/// An outcome that ends the loop ends it for good: if any tick of the trace
/// brings the quit key or a failure, the loop is terminated after the whole
/// trace, and the display was released exactly once.
pub proof fn lemma_quit_ends_loop(trace: Seq<Polled>, n: int)
    requires
        0 <= n < trace.len(),
        ends_loop(trace[n]),
    ensures
        phase_after(Phase::Running, trace) == Phase::Terminated,
        releases(Phase::Running, trace) == 1,
    decreases trace.len(),
{
    if n < trace.len() - 1 {
        assert(trace.drop_last()[n] == trace[n]);
        lemma_quit_ends_loop(trace.drop_last(), n);
    }
    lemma_release_exactly_once(trace);
}

/// An outcome that ends the loop has ended it by the end of its own tick:
/// if tick `n` brings the quit key or a failure, the loop is terminated
/// after the ticks `0..=n`, and the display was released exactly once.
pub proof fn lemma_quit_ends_by_its_tick(trace: Seq<Polled>, n: int)
    requires
        0 <= n < trace.len(),
        ends_loop(trace[n]),
    ensures
        phase_after(Phase::Running, trace.take(n + 1)) == Phase::Terminated,
        releases(Phase::Running, trace.take(n + 1)) == 1,
{
    let upto = trace.take(n + 1);
    assert(upto[n] == trace[n]);
    lemma_quit_ends_loop(upto, n);
}

} // verus!
