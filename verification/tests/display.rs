use thermal_sampler::display::{
    pause_after, Action, DisplayLoop, Event, Pacing, Phase, TickMetrics, DEFAULT_INTERVAL_NANOS,
};
use thermal_sampler::report::Reading;
use thermal_sampler::sensor::Sensor;

fn zone(id: u64) -> Sensor {
    Sensor { id, locator: format!("thermal_zone{}/temp", id), label: None }
}

fn sampled(at_nanos: u64) -> Event {
    Event::Sampled {
        readings: vec![Reading::capture(1, Some("2\n")), Reading::capture(0, Some("1\n"))],
        at_nanos,
    }
}

fn launched(at_nanos: u64) -> Event {
    Event::ReadsLaunched { at_nanos }
}

#[test]
fn default_interval_is_one_second() {
    assert_eq!(DEFAULT_INTERVAL_NANOS, 1_000_000_000);
    let state = DisplayLoop::with_defaults(vec![zone(0)]);
    assert_eq!(state.interval_nanos, 1_000_000_000);
    assert_eq!(state.pacing, Pacing::FixedDelay);
    assert_eq!(state.phase, Phase::Idle);
    assert_eq!(state.sensors, vec![zone(0)]);
}

#[test]
fn rounds_repeat_in_the_same_order() {
    let mut state = DisplayLoop::with_defaults(vec![zone(0), zone(1)]);
    assert_eq!(state.step(Event::Started), Action::LaunchReads);
    for round in 0..3u64 {
        assert_eq!(state.phase, Phase::Launching);
        assert_eq!(state.step(launched(5_000 * round)), Action::Repaint);
        assert_eq!(state.step(Event::Repainted), Action::AwaitReadings);
        assert_eq!(
            state.step(sampled(5_001 * round)),
            Action::Print(format!("thermal_zone0: 1\nthermal_zone1: 2\n0.00000000{}", round))
        );
        assert_eq!(state.step(Event::Printed), Action::Pause(1_000_000_000));
        assert_eq!(state.phase, Phase::Pausing);
        assert_eq!(state.step(Event::Paused), Action::LaunchReads);
        assert_eq!(state.sensors, vec![zone(0), zone(1)]);
    }
}

#[test]
fn fixed_delay_ignores_the_tick_time() {
    assert_eq!(pause_after(Pacing::FixedDelay, 1_000, 0), 1_000);
    assert_eq!(pause_after(Pacing::FixedDelay, 1_000, 999), 1_000);
    assert_eq!(pause_after(Pacing::FixedDelay, 1_000, 5_000), 1_000);
}

#[test]
fn fixed_period_pauses_for_what_is_left() {
    assert_eq!(pause_after(Pacing::FixedPeriod, 1_000, 0), 1_000);
    assert_eq!(pause_after(Pacing::FixedPeriod, 1_000, 250), 750);
    assert_eq!(pause_after(Pacing::FixedPeriod, 1_000, 1_000), 0);
    assert_eq!(pause_after(Pacing::FixedPeriod, 1_000, 1_001), 0);
    assert_eq!(pause_after(Pacing::FixedPeriod, 0, u64::MAX), 0);
    assert_eq!(pause_after(Pacing::FixedPeriod, u64::MAX, 1), u64::MAX - 1);
}

#[test]
fn fixed_period_loop_uses_the_last_tick() {
    let mut state = DisplayLoop::new(vec![zone(0)], 1_000_000, Pacing::FixedPeriod);
    state.step(Event::Started);
    state.step(launched(7_000_000));
    state.step(Event::Repainted);
    state.step(sampled(7_400_000));
    assert_eq!(state.tick, TickMetrics { start_nanos: 7_000_000, elapsed_nanos: 400_000 });
    assert_eq!(state.step(Event::Printed), Action::Pause(600_000));
}

#[test]
fn display_failure_stops_the_loop() {
    let mut state = DisplayLoop::with_defaults(vec![zone(0)]);
    state.step(Event::Started);
    state.step(launched(0));
    assert_eq!(state.step(Event::Failed), Action::Abort);
    assert_eq!(state.phase, Phase::Halted);
    assert_eq!(state.step(Event::Repainted), Action::Abort);
    assert_eq!(state.step(Event::Started), Action::Abort);
    assert_eq!(state.phase, Phase::Halted);
}

#[test]
fn unexpected_event_stops_the_loop() {
    let mut state = DisplayLoop::with_defaults(vec![zone(0)]);
    assert_eq!(state.step(Event::Printed), Action::Abort);
    assert_eq!(state.phase, Phase::Halted);
    let mut other = DisplayLoop::with_defaults(vec![zone(0)]);
    other.step(Event::Started);
    assert_eq!(other.step(sampled(1)), Action::Abort);
    assert_eq!(other.phase, Phase::Halted);
    assert_eq!(other.sensors, vec![zone(0)]);
}

#[test]
fn tick_span_is_end_minus_start() {
    assert_eq!(
        TickMetrics::measure(1_000, 1_750),
        TickMetrics { start_nanos: 1_000, elapsed_nanos: 750 }
    );
    assert_eq!(TickMetrics::measure(9, 9), TickMetrics { start_nanos: 9, elapsed_nanos: 0 });
    assert_eq!(TickMetrics::measure(10, 3), TickMetrics { start_nanos: 10, elapsed_nanos: 0 });
    assert_eq!(
        TickMetrics::measure(0, u64::MAX),
        TickMetrics { start_nanos: 0, elapsed_nanos: u64::MAX }
    );
}

#[test]
fn report_shows_the_span_of_its_own_tick() {
    let mut state = DisplayLoop::with_defaults(vec![zone(0), zone(1)]);
    state.step(Event::Started);
    state.step(launched(2_000_000_000));
    state.step(Event::Repainted);
    assert_eq!(
        state.step(sampled(3_500_000_000)),
        Action::Print("thermal_zone0: 1\nthermal_zone1: 2\n1.500000000".to_string())
    );
}
