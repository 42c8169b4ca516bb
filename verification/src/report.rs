//! Readings and the report of one tick.
//!
//! A tick hands over the readings in whatever order they arrived. The report
//! has one line for each sensor, in the order of the sensor list, and shows
//! for each the value of the reading that carries its id, or nothing where
//! there is none.

use vstd::prelude::*;
use vstd::string::*;
use crate::sensor::{
    discovered, entry_outcome, kind_qualifies, lemma_discovered_sorted, sensor_prefix,
    sensor_views, value_file_suffix, DirEntry, Rejection, Sensor, SensorView,
};
use crate::text::{
    decimal, lemma_parse_inverts_decimal, padded_decimal, push_decimal, push_padded_decimal, trim,
    trimmed,
};

verus! {

/// What one sensor gave in one tick.
#[derive(Clone, Debug, PartialEq, Eq)]
pub struct Reading {
    pub sensor_id: u64,
    /// The value as text, or `None` where the read failed.
    pub value: Option<String>,
}

/// A reading as a mathematical value.
pub struct ReadingView {
    pub sensor_id: u64,
    pub value: Option<Seq<char>>,
}

impl View for Reading {
    type V = ReadingView;

    open spec fn view(&self) -> ReadingView {
        ReadingView {
            sensor_id: self.sensor_id,
            value: match self.value {
                Some(v) => Some(v@),
                None => None,
            },
        }
    }
}

/// The views of a list of readings, in the same order.
pub open spec fn reading_views(s: Seq<Reading>) -> Seq<ReadingView> {
    s.map_values(|x: Reading| x@)
}

/// The reading that a raw read stands for: its text without the surrounding
/// white space, or no value where the read failed.
pub open spec fn captured(sensor_id: u64, raw: Option<Seq<char>>) -> ReadingView {
    ReadingView {
        sensor_id,
        value: match raw {
            Some(t) => Some(trimmed(t)),
            None => None,
        },
    }
}

/// What is shown in place of a value that could not be read.
pub open spec fn placeholder() -> Seq<char> {
    ""@
}

/// What stands between a sensor's name and its value.
pub open spec fn separator() -> Seq<char> {
    ": "@
}

/// What ends a sensor's line.
pub open spec fn line_end() -> Seq<char> {
    "\n"@
}

/// What stands between the whole seconds and their fraction.
pub open spec fn decimal_point() -> Seq<char> {
    "."@
}

/// The text that a reading shows.
pub open spec fn shown_value(r: ReadingView) -> Seq<char> {
    match r.value {
        Some(v) => v,
        None => placeholder(),
    }
}

/// The text shown for the sensor `id`: that of the first reading that
/// carries the id, or the placeholder where none does.
pub open spec fn value_for(readings: Seq<ReadingView>, id: u64) -> Seq<char>
    decreases readings.len(),
{
    if readings.len() == 0 {
        placeholder()
    } else if readings.first().sensor_id == id {
        shown_value(readings.first())
    } else {
        value_for(readings.drop_first(), id)
    }
}

/// The name under which a sensor is shown: its label, or the sensor prefix
/// followed by the id.
pub open spec fn shown_name(s: SensorView) -> Seq<char> {
    match s.label {
        Some(l) => l,
        None => sensor_prefix() + decimal(s.id as nat),
    }
}

/// The line of one sensor: name, separator, value, line end.
pub open spec fn line_text(s: SensorView, readings: Seq<ReadingView>) -> Seq<char> {
    shown_name(s) + separator() + value_for(readings, s.id) + line_end()
}

/// The lines of a report: one for each sensor, in the sensors' order.
pub open spec fn report_lines(sensors: Seq<SensorView>, readings: Seq<ReadingView>) -> Seq<
    Seq<char>,
> {
    Seq::new(sensors.len(), |i: int| line_text(sensors[i], readings))
}

/// The texts one after another.
pub open spec fn joined(lines: Seq<Seq<char>>) -> Seq<char>
    decreases lines.len(),
{
    if lines.len() == 0 {
        Seq::empty()
    } else {
        joined(lines.drop_last()) + lines.last()
    }
}

/// A time span as seconds with nine decimal places.
pub open spec fn elapsed_text(nanos: u64) -> Seq<char> {
    decimal((nanos / 1_000_000_000) as nat) + decimal_point() + padded_decimal(
        (nanos % 1_000_000_000) as nat,
        9,
    )
}

/// The report of a tick: the sensors' lines, then the elapsed time with no
/// line end behind it.
pub open spec fn report_text(
    sensors: Seq<SensorView>,
    readings: Seq<ReadingView>,
    elapsed_nanos: u64,
) -> Seq<char> {
    joined(report_lines(sensors, readings)) + elapsed_text(elapsed_nanos)
}

/// Whether no two readings carry the same sensor id.
pub open spec fn distinct_ids(readings: Seq<ReadingView>) -> bool {
    forall|i: int, j: int|
        0 <= i < j < readings.len() ==> readings[i].sensor_id != readings[j].sensor_id
}

impl Reading {
    /// Makes the reading of one sensor from what the read gave: the text is
    /// trimmed, and a failed read (`None`) leaves the reading without a value.
    pub fn capture(sensor_id: u64, raw: Option<&str>) -> (r: Reading)
        ensures
            r@ == captured(
                sensor_id,
                match raw {
                    Some(t) => Some(t@),
                    None => None,
                },
            ),
    {
        match raw {
            Some(t) => Reading { sensor_id, value: Some(trim(t)) },
            None => Reading { sensor_id, value: None },
        }
    }
}

/// The text to show for the sensor `id` among the readings of a tick.
pub fn value_text<'a>(readings: &'a Vec<Reading>, id: u64) -> (r: &'a str)
    ensures
        r@ == value_for(reading_views(readings@), id),
{
    let ghost all = reading_views(readings@);
    let n: usize = readings.len();
    let mut i: usize = 0;
    proof {
        assert(all.subrange(0, n as int) =~= all);
    }
    while i < n
        invariant
            i <= n,
            n == readings@.len(),
            all == reading_views(readings@),
            value_for(all, id) == value_for(all.subrange(i as int, n as int), id),
        decreases n - i,
    {
        proof {
            let cur = all.subrange(i as int, n as int);
            assert(cur.first() == readings@[i as int]@);
            assert(cur.drop_first() =~= all.subrange(i + 1, n as int));
        }
        if readings[i].sensor_id == id {
            match &readings[i].value {
                Some(v) => {
                    return v.as_str();
                },
                None => {
                    return "";
                },
            }
        }
        i += 1;
    }
    ""
}

/// The name under which a sensor is shown.
pub fn display_name(sensor: &Sensor) -> (r: String)
    ensures
        r@ == shown_name(sensor@),
{
    match &sensor.label {
        Some(l) => l.clone(),
        None => {
            let mut name: String = String::from_str("thermal_zone");
            push_decimal(&mut name, sensor.id);
            name
        },
    }
}

/// The line of one sensor in the report of a tick.
pub fn render_line(sensor: &Sensor, readings: &Vec<Reading>) -> (r: String)
    ensures
        r@ == line_text(sensor@, reading_views(readings@)),
{
    let mut line: String = display_name(sensor);
    line.append(": ");
    line.append(value_text(readings, sensor.id));
    line.append("\n");
    line
}

/// The lines of the report of a tick: exactly one for each sensor, in the
/// sensors' order, whatever readings arrived and in whatever order.
pub fn render_lines(sensors: &Vec<Sensor>, readings: &Vec<Reading>) -> (r: Vec<String>)
    ensures
        r@.len() == sensors@.len(),
        r@.map_values(|l: String| l@) == report_lines(
            sensor_views(sensors@),
            reading_views(readings@),
        ),
{
    let mut out: Vec<String> = Vec::new();
    let mut i: usize = 0;
    while i < sensors.len()
        invariant
            i <= sensors.len(),
            out@.len() == i,
            forall|k: int|
                0 <= k < i ==> (#[trigger] out@[k])@ == line_text(
                    sensors@[k]@,
                    reading_views(readings@),
                ),
        decreases sensors.len() - i,
    {
        out.push(render_line(&sensors[i], readings));
        i += 1;
    }
    proof {
        assert(out@.map_values(|l: String| l@) =~= report_lines(
            sensor_views(sensors@),
            reading_views(readings@),
        ));
    }
    out
}

/// A time span in nanoseconds, written as seconds with nine decimal places.
pub fn render_elapsed(nanos: u64) -> (r: String)
    ensures
        r@ == elapsed_text(nanos),
{
    let mut out: String = String::from_str("");
    proof {
        reveal_strlit("");
    }
    push_decimal(&mut out, nanos / 1_000_000_000);
    out.append(".");
    push_padded_decimal(&mut out, nanos % 1_000_000_000, 9);
    proof {
        assert(out@ =~= elapsed_text(nanos));
    }
    out
}

/// The report of a tick: one line for each sensor, in the sensors' order,
/// then the elapsed time.
pub fn render_report(sensors: &Vec<Sensor>, readings: &Vec<Reading>, elapsed_nanos: u64) -> (r:
    String)
    ensures
        r@ == report_text(sensor_views(sensors@), reading_views(readings@), elapsed_nanos),
{
    let lines: Vec<String> = render_lines(sensors, readings);
    let ghost texts = report_lines(sensor_views(sensors@), reading_views(readings@));
    let mut out: String = String::from_str("");
    proof {
        reveal_strlit("");
        assert(out@ =~= joined(texts.subrange(0, 0)));
    }
    let mut i: usize = 0;
    while i < lines.len()
        invariant
            i <= lines.len(),
            texts == lines@.map_values(|l: String| l@),
            out@ == joined(texts.subrange(0, i as int)),
        decreases lines.len() - i,
    {
        proof {
            let next = texts.subrange(0, i + 1);
            assert(next.drop_last() =~= texts.subrange(0, i as int));
            assert(next.last() == lines@[i as int]@);
        }
        out.append(lines[i].as_str());
        i += 1;
    }
    proof {
        assert(texts.subrange(0, i as int) =~= texts);
    }
    let tail: String = render_elapsed(elapsed_nanos);
    out.append(tail.as_str());
    out
}

/// Among readings with distinct ids, the reading that carries an id decides
/// what is shown for it, wherever it stands.
pub proof fn lemma_value_of_reading(readings: Seq<ReadingView>, j: int)
    requires
        distinct_ids(readings),
        0 <= j < readings.len(),
    ensures
        value_for(readings, readings[j].sensor_id) == shown_value(readings[j]),
    decreases readings.len(),
{
    if j > 0 {
        let rest = readings.drop_first();
        assert(readings[0].sensor_id != readings[j].sensor_id);
        assert forall|a: int, b: int| 0 <= a < b < rest.len() implies rest[a].sensor_id
            != rest[b].sensor_id by {
            assert(rest[a] == readings[a + 1] && rest[b] == readings[b + 1]);
        }
        assert(rest[j - 1] == readings[j]);
        lemma_value_of_reading(rest, j - 1);
    }
}

/// A sensor of which no reading arrived is shown with the placeholder.
pub proof fn lemma_value_without_reading(readings: Seq<ReadingView>, id: u64)
    requires
        forall|j: int| 0 <= j < readings.len() ==> (#[trigger] readings[j]).sensor_id != id,
    ensures
        value_for(readings, id) == placeholder(),
    decreases readings.len(),
{
    if readings.len() > 0 {
        let rest = readings.drop_first();
        assert(readings[0].sensor_id != id);
        assert forall|j: int| 0 <= j < rest.len() implies (#[trigger] rest[j]).sensor_id != id by {
            assert(rest[j] == readings[j + 1]);
        }
        lemma_value_without_reading(rest, id);
    }
}

/// What is shown for a sensor does not depend on the order in which the
/// readings arrived.
pub proof fn lemma_value_ignores_arrival_order(
    first: Seq<ReadingView>,
    second: Seq<ReadingView>,
    id: u64,
)
    requires
        distinct_ids(first),
        distinct_ids(second),
        forall|x: ReadingView| first.contains(x) <==> second.contains(x),
    ensures
        value_for(first, id) == value_for(second, id),
{
    if exists|j: int| 0 <= j < first.len() && first[j].sensor_id == id {
        let j = choose|j: int| 0 <= j < first.len() && first[j].sensor_id == id;
        lemma_value_of_reading(first, j);
        assert(first.contains(first[j]));
        assert(second.contains(first[j]));
        let k = choose|k: int| 0 <= k < second.len() && second[k] == first[j];
        lemma_value_of_reading(second, k);
    } else {
        lemma_value_without_reading(first, id);
        assert forall|k: int| 0 <= k < second.len() implies (#[trigger] second[k]).sensor_id
            != id by {
            assert(second.contains(second[k]));
            assert(first.contains(second[k]));
            let j = choose|j: int| 0 <= j < first.len() && first[j] == second[k];
            assert(first[j].sensor_id == second[k].sensor_id);
        }
        lemma_value_without_reading(second, id);
    }
}

/// The report does not depend on the order in which the readings arrived:
/// its lines follow the sensor list, and each shows the reading of its own
/// sensor.
pub proof fn lemma_report_ignores_arrival_order(
    sensors: Seq<SensorView>,
    first: Seq<ReadingView>,
    second: Seq<ReadingView>,
    elapsed_nanos: u64,
)
    requires
        distinct_ids(first),
        distinct_ids(second),
        forall|x: ReadingView| first.contains(x) <==> second.contains(x),
    ensures
        report_lines(sensors, first) == report_lines(sensors, second),
        report_text(sensors, first, elapsed_nanos) == report_text(sensors, second, elapsed_nanos),
{
    assert forall|i: int| 0 <= i < sensors.len() implies line_text(sensors[i], first) == line_text(
        sensors[i],
        second,
    ) by {
        lemma_value_ignores_arrival_order(first, second, sensors[i].id);
    }
    assert(report_lines(sensors, first) =~= report_lines(sensors, second));
}

/// A report has one line for each sensor, the line at each place being that
/// of the sensor at the same place, whichever readings arrived.
pub proof fn lemma_one_line_per_sensor(sensors: Seq<SensorView>, readings: Seq<ReadingView>)
    ensures
        report_lines(sensors, readings).len() == sensors.len(),
        forall|i: int|
            0 <= i < sensors.len() ==> #[trigger] report_lines(sensors, readings)[i] == line_text(
                sensors[i],
                readings,
            ),
{
}

/// The readings in which the read at place `j` has failed.
pub open spec fn with_failed_read(readings: Seq<ReadingView>, j: int) -> Seq<ReadingView> {
    readings.update(j, ReadingView { sensor_id: readings[j].sensor_id, value: None })
}

/// Replacing a reading by another of the same sensor changes nothing for
/// the other sensors.
pub proof fn lemma_value_of_others(
    readings: Seq<ReadingView>,
    j: int,
    replacement: ReadingView,
    id: u64,
)
    requires
        0 <= j < readings.len(),
        replacement.sensor_id == readings[j].sensor_id,
        id != replacement.sensor_id,
    ensures
        value_for(readings.update(j, replacement), id) == value_for(readings, id),
    decreases readings.len(),
{
    let changed = readings.update(j, replacement);
    if j == 0 {
        assert(changed.drop_first() =~= readings.drop_first());
    } else {
        assert(changed.drop_first() =~= readings.drop_first().update(j - 1, replacement));
        assert(readings.drop_first()[j - 1] == readings[j]);
        lemma_value_of_others(readings.drop_first(), j - 1, replacement, id);
    }
}

/// A failed read costs no line and touches no other: the report still has a
/// line for each sensor, the line of the sensor whose read failed shows the
/// placeholder, and every other line is what it would have been.
pub proof fn lemma_failed_read_is_local(
    sensors: Seq<SensorView>,
    readings: Seq<ReadingView>,
    j: int,
)
    requires
        distinct_ids(readings),
        0 <= j < readings.len(),
    ensures
        report_lines(sensors, with_failed_read(readings, j)).len() == sensors.len(),
        forall|i: int|
            0 <= i < sensors.len() ==> #[trigger] report_lines(
                sensors,
                with_failed_read(readings, j),
            )[i] == if sensors[i].id == readings[j].sensor_id {
                shown_name(sensors[i]) + separator() + placeholder() + line_end()
            } else {
                report_lines(sensors, readings)[i]
            },
{
    let failed = with_failed_read(readings, j);
    assert(distinct_ids(failed));
    lemma_value_of_reading(failed, j);
    assert forall|i: int| 0 <= i < sensors.len() implies #[trigger] report_lines(sensors, failed)[i]
        == if sensors[i].id == readings[j].sensor_id {
        shown_name(sensors[i]) + separator() + placeholder() + line_end()
    } else {
        report_lines(sensors, readings)[i]
    } by {
        if sensors[i].id != readings[j].sensor_id {
            lemma_value_of_others(readings, j, failed[j], sensors[i].id);
        }
    }
}

/// A directory member named by the sensor prefix and the shortest decimal
/// notation of an id is the sensor of that id, and is shown under the very
/// name it has in the directory.
pub proof fn lemma_canonical_name(e: DirEntry, id: u64)
    requires
        kind_qualifies(e.kind),
        e.name is Some,
        e.name->0@ == sensor_prefix() + decimal(id as nat),
    ensures
        entry_outcome(e) == Ok::<SensorView, Rejection>(
            SensorView { id, locator: e.name->0@ + value_file_suffix(), label: None },
        ),
        shown_name(entry_outcome(e)->Ok_0) == e.name->0@,
{
    let name = e.name->0@;
    let prefix = sensor_prefix();
    assert(name.subrange(0, prefix.len() as int) =~= prefix);
    assert(name.subrange(prefix.len() as int, name.len() as int) =~= decimal(id as nat));
    lemma_parse_inverts_decimal(id);
}

/// The lines of a report on discovered sensors stand by ascending sensor
/// id, in whatever order the directory was listed and the readings arrived.
pub proof fn lemma_report_follows_ids(entries: Seq<DirEntry>, readings: Seq<ReadingView>)
    ensures
        ({
            let sensors = discovered(entries);
            let lines = report_lines(sensors, readings);
            &&& lines.len() == sensors.len()
            &&& forall|i: int, j: int|
                0 <= i < j < lines.len() ==> {
                    &&& #[trigger] lines[i] == line_text(sensors[i], readings)
                    &&& #[trigger] lines[j] == line_text(sensors[j], readings)
                    &&& sensors[i].id <= sensors[j].id
                }
        }),
{
    lemma_discovered_sorted(entries);
}

} // verus!
