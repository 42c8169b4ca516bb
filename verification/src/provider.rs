//! Sensors and readings of a system snapshot.
//!
//! A `sysinfo::System` holds, since it was last refreshed, a list of
//! components with a label and a temperature each. Refreshing it reads the
//! machine and is the caller's business; what is taken from the snapshot
//! here does not.

use vstd::prelude::*;
use sysinfo::{ComponentExt, System, SystemExt};
use crate::report::{
    captured, distinct_ids, lemma_value_of_reading, line_end, reading_views, render_report,
    report_lines, report_text, separator, Reading, ReadingView,
};
use crate::sensor::{provider_sensor, provider_sensors, sensor_views, Sensor, SensorView};
use crate::text::trimmed;

verus! {

#[verifier::external_type_specification]
#[verifier::external_body]
pub struct ExSystem(sysinfo::System);

/// The components that a snapshot holds, in its own order: for each the
/// label and the temperature, the latter as the text that the number prints
/// as.
///
/// This names what `SystemExt::components` hands out, each component taken
/// by `ComponentExt::label` and `ComponentExt::temperature`. All three only
/// read what the snapshot has stored, so the same snapshot gives the same
/// list. Nothing is proved of it.
pub uninterp spec fn snapshot_components(system: System) -> Seq<(Seq<char>, Seq<char>)>;

/// Calls `SystemExt::components` and takes the length of the slice it
/// returns. Believed, not proved: that this is the number of components of
/// the snapshot.
#[verifier::external_body]
fn component_count(system: &System) -> (n: usize)
    ensures
        n == snapshot_components(*system).len(),
{
    system.components().len()
}

/// Calls `ComponentExt::label` on the component at `place` and copies the
/// text. Believed, not proved: that this is the label which the snapshot
/// holds at that place.
#[verifier::external_body]
fn component_label(system: &System, place: usize) -> (r: String)
    requires
        place < snapshot_components(*system).len(),
    ensures
        r@ == snapshot_components(*system)[place as int].0,
{
    system.components()[place].label().to_string()
}

/// Calls `ComponentExt::temperature` on the component at `place` and prints
/// the number as text. Believed, not proved: that this is the temperature
/// which the snapshot holds at that place.
#[verifier::external_body]
fn component_temperature(system: &System, place: usize) -> (r: String)
    requires
        place < snapshot_components(*system).len(),
    ensures
        r@ == snapshot_components(*system)[place as int].1,
{
    system.components()[place].temperature().to_string()
}

/// The sensors that a snapshot stands for: one for each component, in the
/// snapshot's order, with its place as id and its label as name.
pub open spec fn snapshot_sensor_views(system: System) -> Seq<SensorView> {
    Seq::new(
        snapshot_components(system).len(),
        |i: int| provider_sensor(i, snapshot_components(system)[i].0),
    )
}

/// The readings that a snapshot stands for: one for each component, in the
/// snapshot's order, under the component's place, with the trimmed
/// temperature text as value.
pub open spec fn snapshot_reading_views(system: System) -> Seq<ReadingView> {
    Seq::new(
        snapshot_components(system).len(),
        |i: int| captured(i as u64, Some(snapshot_components(system)[i].1)),
    )
}

/// The sensors of a snapshot.
pub fn snapshot_sensors(system: &System) -> (r: Vec<Sensor>)
    ensures
        sensor_views(r@) == snapshot_sensor_views(*system),
{
    let n: usize = component_count(system);
    let mut labels: Vec<String> = Vec::new();
    let mut i: usize = 0;
    while i < n
        invariant
            i <= n,
            n == snapshot_components(*system).len(),
            labels@.len() == i,
            forall|k: int|
                0 <= k < i ==> (#[trigger] labels@[k])@ == snapshot_components(*system)[k].0,
        decreases n - i,
    {
        labels.push(component_label(system, i));
        i += 1;
    }
    let sensors: Vec<Sensor> = provider_sensors(&labels);
    proof {
        assert(sensor_views(sensors@) =~= snapshot_sensor_views(*system));
    }
    sensors
}

/// The readings of a snapshot.
pub fn snapshot_readings(system: &System) -> (r: Vec<Reading>)
    ensures
        reading_views(r@) == snapshot_reading_views(*system),
{
    let n: usize = component_count(system);
    let mut out: Vec<Reading> = Vec::new();
    let mut i: usize = 0;
    while i < n
        invariant
            i <= n,
            n == snapshot_components(*system).len(),
            out@.len() == i,
            forall|k: int|
                0 <= k < i ==> (#[trigger] out@[k])@ == captured(
                    k as u64,
                    Some(snapshot_components(*system)[k].1),
                ),
        decreases n - i,
    {
        let text: String = component_temperature(system, i);
        out.push(Reading::capture(i as u64, Some(text.as_str())));
        i += 1;
    }
    proof {
        assert(reading_views(out@) =~= snapshot_reading_views(*system));
    }
    out
}

/// The report of a tick on a snapshot: a line for each component that the
/// snapshot holds, with its label and its temperature, then the elapsed
/// time.
pub fn snapshot_report(system: &System, elapsed_nanos: u64) -> (r: String)
    ensures
        r@ == report_text(
            snapshot_sensor_views(*system),
            snapshot_reading_views(*system),
            elapsed_nanos,
        ),
{
    let sensors: Vec<Sensor> = snapshot_sensors(system);
    let readings: Vec<Reading> = snapshot_readings(system);
    render_report(&sensors, &readings, elapsed_nanos)
}

/// Each line of a snapshot's report shows one component: its label, the
/// separator, its trimmed temperature text and the line end, the components
/// standing in the snapshot's order.
pub proof fn lemma_snapshot_lines(system: System)
    requires
        snapshot_components(system).len() <= u64::MAX,
    ensures
        distinct_ids(snapshot_reading_views(system)),
        report_lines(snapshot_sensor_views(system), snapshot_reading_views(system)).len()
            == snapshot_components(system).len(),
        forall|i: int|
            0 <= i < snapshot_components(system).len() ==> #[trigger] report_lines(
                snapshot_sensor_views(system),
                snapshot_reading_views(system),
            )[i] == snapshot_components(system)[i].0 + separator() + trimmed(
                snapshot_components(system)[i].1,
            ) + line_end(),
{
    let sensors = snapshot_sensor_views(system);
    let readings = snapshot_reading_views(system);
    assert forall|i: int| 0 <= i < sensors.len() implies #[trigger] report_lines(
        sensors,
        readings,
    )[i] == snapshot_components(system)[i].0 + separator() + trimmed(
        snapshot_components(system)[i].1,
    ) + line_end() by {
        assert(readings[i].sensor_id == sensors[i].id);
        lemma_value_of_reading(readings, i);
    }
}

} // verus!
