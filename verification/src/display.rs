//! The decisions of the refresh loop.
//!
//! The loop itself waits, reads and writes, and so runs outside this
//! library. After each thing it has done it reports an event and is told what
//! to do next. One round is: start the sensor reads, repaint the display while
//! they run, wait for all of them, print the report, pause.

use vstd::prelude::*;
use crate::report::{reading_views, render_report, report_text, Reading, ReadingView};
use crate::sensor::{sensor_views, Sensor, SensorView};

verus! {

/// The pause between two rounds where nothing else is asked for: one second.
pub const DEFAULT_INTERVAL_NANOS: u64 = 1_000_000_000;

/// How the pause after a round is measured.
#[derive(Clone, Copy, Debug, PartialEq, Eq)]
pub enum Pacing {
    /// Always the whole interval, however long the tick took.
    FixedDelay,
    /// What is left of the interval after the tick, and nothing where the
    /// tick took longer.
    FixedPeriod,
}

/// What the loop is busy with.
#[derive(Clone, Copy, Debug, PartialEq, Eq)]
pub enum Phase {
    Idle,
    Launching,
    Repainting,
    Awaiting,
    Printing,
    Pausing,
    Halted,
}

/// The wall-clock span of one tick, in nanoseconds of the loop's clock.
#[derive(Clone, Copy, Debug, PartialEq, Eq)]
pub struct TickMetrics {
    /// When the tick began.
    pub start_nanos: u64,
    /// How long sampling took. It is shown, and with a fixed period it
    /// shortens the pause; it decides nothing else.
    pub elapsed_nanos: u64,
}

/// What the loop has just done. The times are readings of one clock that
/// never runs backwards.
#[derive(Clone, Debug, PartialEq, Eq)]
pub enum Event {
    Started,
    /// The reads of a tick were started at this time.
    ReadsLaunched { at_nanos: u64 },
    Repainted,
    /// Every read has ended by this time; the readings come in the order of
    /// arrival.
    Sampled { readings: Vec<Reading>, at_nanos: u64 },
    Printed,
    Paused,
    /// The display could not be cleared or written.
    Failed,
}

/// What the loop is to do next.
#[derive(Clone, Debug, PartialEq, Eq)]
pub enum Action {
    LaunchReads,
    Repaint,
    AwaitReadings,
    Print(String),
    Pause(u64),
    Abort,
}

/// The state of the refresh loop.
#[derive(Clone, Debug, PartialEq, Eq)]
pub struct DisplayLoop {
    pub sensors: Vec<Sensor>,
    pub interval_nanos: u64,
    pub pacing: Pacing,
    pub phase: Phase,
    /// The span of the tick that is running, or of the last one.
    pub tick: TickMetrics,
}

/// An event as a mathematical value.
pub enum EventView {
    Started,
    ReadsLaunched { at_nanos: u64 },
    Repainted,
    Sampled { readings: Seq<ReadingView>, at_nanos: u64 },
    Printed,
    Paused,
    Failed,
}

/// An action as a mathematical value.
pub enum ActionView {
    LaunchReads,
    Repaint,
    AwaitReadings,
    Print(Seq<char>),
    Pause(u64),
    Abort,
}

/// The loop's state as a mathematical value.
pub struct LoopView {
    pub sensors: Seq<SensorView>,
    pub interval_nanos: u64,
    pub pacing: Pacing,
    pub phase: Phase,
    pub tick: TickMetrics,
}

impl View for Event {
    type V = EventView;

    open spec fn view(&self) -> EventView {
        match *self {
            Event::Started => EventView::Started,
            Event::ReadsLaunched { at_nanos } => EventView::ReadsLaunched { at_nanos },
            Event::Repainted => EventView::Repainted,
            Event::Sampled { readings, at_nanos } => EventView::Sampled {
                readings: reading_views(readings@),
                at_nanos,
            },
            Event::Printed => EventView::Printed,
            Event::Paused => EventView::Paused,
            Event::Failed => EventView::Failed,
        }
    }
}

impl View for Action {
    type V = ActionView;

    open spec fn view(&self) -> ActionView {
        match *self {
            Action::LaunchReads => ActionView::LaunchReads,
            Action::Repaint => ActionView::Repaint,
            Action::AwaitReadings => ActionView::AwaitReadings,
            Action::Print(text) => ActionView::Print(text@),
            Action::Pause(nanos) => ActionView::Pause(nanos),
            Action::Abort => ActionView::Abort,
        }
    }
}

impl View for DisplayLoop {
    type V = LoopView;

    open spec fn view(&self) -> LoopView {
        LoopView {
            sensors: sensor_views(self.sensors@),
            interval_nanos: self.interval_nanos,
            pacing: self.pacing,
            phase: self.phase,
            tick: self.tick,
        }
    }
}

/// How long the loop pauses after a tick that took `elapsed` nanoseconds.
pub open spec fn pause_for(pacing: Pacing, interval: u64, elapsed: u64) -> u64 {
    match pacing {
        Pacing::FixedDelay => interval,
        Pacing::FixedPeriod => if elapsed >= interval {
            0
        } else {
            (interval - elapsed) as u64
        },
    }
}

/// The time from `start` to `end`, and nothing where `end` is the earlier.
pub open spec fn span(start: u64, end: u64) -> u64 {
    if end >= start {
        (end - start) as u64
    } else {
        0
    }
}

/// The state in which the loop has stopped for good.
pub open spec fn halted(state: LoopView) -> LoopView {
    LoopView { phase: Phase::Halted, ..state }
}

/// The loop's rule: the state after an event, and what to do next.
///
/// Each phase waits for one event. That event moves the loop on to the next
/// phase; a failure of the display, or an event that the phase does not wait
/// for, stops the loop.
pub open spec fn transition(state: LoopView, event: EventView) -> (LoopView, ActionView) {
    match (state.phase, event) {
        (Phase::Idle, EventView::Started) => (
            LoopView { phase: Phase::Launching, ..state },
            ActionView::LaunchReads,
        ),
        (Phase::Launching, EventView::ReadsLaunched { at_nanos }) => (
            LoopView {
                phase: Phase::Repainting,
                tick: TickMetrics { start_nanos: at_nanos, elapsed_nanos: 0 },
                ..state
            },
            ActionView::Repaint,
        ),
        (Phase::Repainting, EventView::Repainted) => (
            LoopView { phase: Phase::Awaiting, ..state },
            ActionView::AwaitReadings,
        ),
        (Phase::Awaiting, EventView::Sampled { readings, at_nanos }) => (
            LoopView {
                phase: Phase::Printing,
                tick: TickMetrics {
                    start_nanos: state.tick.start_nanos,
                    elapsed_nanos: span(state.tick.start_nanos, at_nanos),
                },
                ..state
            },
            ActionView::Print(
                report_text(state.sensors, readings, span(state.tick.start_nanos, at_nanos)),
            ),
        ),
        (Phase::Printing, EventView::Printed) => (
            LoopView { phase: Phase::Pausing, ..state },
            ActionView::Pause(
                pause_for(state.pacing, state.interval_nanos, state.tick.elapsed_nanos),
            ),
        ),
        (Phase::Pausing, EventView::Paused) => (
            LoopView { phase: Phase::Launching, ..state },
            ActionView::LaunchReads,
        ),
        _ => (halted(state), ActionView::Abort),
    }
}

impl TickMetrics {
    /// The span of a tick that began at `start_nanos` and whose readings
    /// were all in at `end_nanos`.
    pub fn measure(start_nanos: u64, end_nanos: u64) -> (r: TickMetrics)
        ensures
            r == (TickMetrics { start_nanos, elapsed_nanos: span(start_nanos, end_nanos) }),
    {
        let elapsed_nanos: u64 = if end_nanos >= start_nanos {
            end_nanos - start_nanos
        } else {
            0
        };
        TickMetrics { start_nanos, elapsed_nanos }
    }
}

/// Computes the pause after a tick.
pub fn pause_after(pacing: Pacing, interval_nanos: u64, elapsed_nanos: u64) -> (r: u64)
    ensures
        r == pause_for(pacing, interval_nanos, elapsed_nanos),
{
    match pacing {
        Pacing::FixedDelay => interval_nanos,
        Pacing::FixedPeriod => if elapsed_nanos >= interval_nanos {
            0
        } else {
            interval_nanos - elapsed_nanos
        },
    }
}

impl DisplayLoop {
    /// A loop over the given sensors that has not started yet.
    pub fn new(sensors: Vec<Sensor>, interval_nanos: u64, pacing: Pacing) -> (r: DisplayLoop)
        ensures
            r@ == (LoopView {
                sensors: sensor_views(sensors@),
                interval_nanos,
                pacing,
                phase: Phase::Idle,
                tick: TickMetrics { start_nanos: 0, elapsed_nanos: 0 },
            }),
    {
        DisplayLoop {
            sensors,
            interval_nanos,
            pacing,
            phase: Phase::Idle,
            tick: TickMetrics { start_nanos: 0, elapsed_nanos: 0 },
        }
    }

    /// A loop that pauses for the default interval after every tick.
    pub fn with_defaults(sensors: Vec<Sensor>) -> (r: DisplayLoop)
        ensures
            r@ == (LoopView {
                sensors: sensor_views(sensors@),
                interval_nanos: DEFAULT_INTERVAL_NANOS,
                pacing: Pacing::FixedDelay,
                phase: Phase::Idle,
                tick: TickMetrics { start_nanos: 0, elapsed_nanos: 0 },
            }),
    {
        DisplayLoop::new(sensors, DEFAULT_INTERVAL_NANOS, Pacing::FixedDelay)
    }

    fn halt(&mut self) -> (action: Action)
        ensures
            final(self)@ == halted(old(self)@),
            action@ == ActionView::Abort,
    {
        self.phase = Phase::Halted;
        Action::Abort
    }

    /// Takes in what the loop has just done and says what it does next.
    pub fn step(&mut self, event: Event) -> (action: Action)
        ensures
            (final(self)@, action@) == transition(old(self)@, event@),
    {
        match event {
            Event::Started => match self.phase {
                Phase::Idle => {
                    self.phase = Phase::Launching;
                    Action::LaunchReads
                },
                _ => self.halt(),
            },
            Event::ReadsLaunched { at_nanos } => match self.phase {
                Phase::Launching => {
                    self.tick = TickMetrics { start_nanos: at_nanos, elapsed_nanos: 0 };
                    self.phase = Phase::Repainting;
                    Action::Repaint
                },
                _ => self.halt(),
            },
            Event::Repainted => match self.phase {
                Phase::Repainting => {
                    self.phase = Phase::Awaiting;
                    Action::AwaitReadings
                },
                _ => self.halt(),
            },
            Event::Sampled { readings, at_nanos } => match self.phase {
                Phase::Awaiting => {
                    self.tick = TickMetrics::measure(self.tick.start_nanos, at_nanos);
                    let text: String = render_report(
                        &self.sensors,
                        &readings,
                        self.tick.elapsed_nanos,
                    );
                    self.phase = Phase::Printing;
                    Action::Print(text)
                },
                _ => self.halt(),
            },
            Event::Printed => match self.phase {
                Phase::Printing => {
                    self.phase = Phase::Pausing;
                    Action::Pause(
                        pause_after(self.pacing, self.interval_nanos, self.tick.elapsed_nanos),
                    )
                },
                _ => self.halt(),
            },
            Event::Paused => match self.phase {
                Phase::Pausing => {
                    self.phase = Phase::Launching;
                    Action::LaunchReads
                },
                _ => self.halt(),
            },
            Event::Failed => self.halt(),
        }
    }
}

/// No event changes the sensors, the interval or the pacing of a loop.
pub proof fn lemma_settings_are_fixed(state: LoopView, event: EventView)
    ensures
        transition(state, event).0.sensors == state.sensors,
        transition(state, event).0.interval_nanos == state.interval_nanos,
        transition(state, event).0.pacing == state.pacing,
{
}

/// A loop that has stopped stays stopped, and a failure stops any loop.
pub proof fn lemma_halt_is_final(state: LoopView, event: EventView)
    ensures
        state.phase == Phase::Halted ==> transition(state, event) == (state, ActionView::Abort),
        transition(state, EventView::Failed) == (halted(state), ActionView::Abort),
{
}

/// One whole round, from the end of a pause to the end of the next: the
/// reads are started, the display is repainted, all readings are awaited,
/// the report of these readings is printed, and the loop pauses again, with
/// the same sensors.
pub proof fn lemma_round(
    state: LoopView,
    readings: Seq<ReadingView>,
    start_nanos: u64,
    end_nanos: u64,
)
    requires
        state.phase == Phase::Pausing || state.phase == Phase::Idle,
    ensures
        ({
            let elapsed_nanos = span(start_nanos, end_nanos);
            let first = if state.phase == Phase::Idle {
                EventView::Started
            } else {
                EventView::Paused
            };
            let s1 = transition(state, first);
            let s2 = transition(s1.0, EventView::ReadsLaunched { at_nanos: start_nanos });
            let s3 = transition(s2.0, EventView::Repainted);
            let s4 = transition(s3.0, EventView::Sampled { readings, at_nanos: end_nanos });
            let s5 = transition(s4.0, EventView::Printed);
            &&& s1.1 == ActionView::LaunchReads
            &&& s2.1 == ActionView::Repaint
            &&& s3.1 == ActionView::AwaitReadings
            &&& s4.1 == ActionView::Print(report_text(state.sensors, readings, elapsed_nanos))
            &&& s5.1 == ActionView::Pause(
                pause_for(state.pacing, state.interval_nanos, elapsed_nanos),
            )
            &&& s5.0 == (LoopView {
                phase: Phase::Pausing,
                tick: TickMetrics { start_nanos, elapsed_nanos },
                ..state
            })
        }),
{
}

/// With a fixed delay the pause is the interval, whatever the tick took;
/// with a fixed period, tick and pause together take the interval unless
/// the tick alone took longer.
pub proof fn lemma_pacing(interval: u64, elapsed: u64)
    ensures
        pause_for(Pacing::FixedDelay, interval, elapsed) == interval,
        elapsed <= interval ==> elapsed + pause_for(Pacing::FixedPeriod, interval, elapsed)
            == interval,
        elapsed > interval ==> pause_for(Pacing::FixedPeriod, interval, elapsed) == 0,
{
}

/// Reads are started only by a loop that has none running: at its start and
/// after a pause. So no second request is made before the readings of the
/// first have come.
pub proof fn lemma_one_request_at_a_time(state: LoopView, event: EventView)
    requires
        transition(state, event).1 == ActionView::LaunchReads,
    ensures
        state.phase == Phase::Idle || state.phase == Phase::Pausing,
        transition(state, event).0.phase == Phase::Launching,
{
}

/// Nothing is printed before every read has ended: a report comes only in
/// answer to the readings of a tick, and it is the report of these readings
/// on all the sensors of the loop.
pub proof fn lemma_no_partial_report(state: LoopView, event: EventView)
    requires
        transition(state, event).1 is Print,
    ensures
        state.phase == Phase::Awaiting,
        event is Sampled,
        transition(state, event).1 == ActionView::Print(
            report_text(
                state.sensors,
                event->readings,
                span(state.tick.start_nanos, event->Sampled_at_nanos),
            ),
        ),
{
}

} // verus!
