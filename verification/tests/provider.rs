use sysinfo::{ComponentExt, System, SystemExt};
use thermal_sampler::provider::{snapshot_readings, snapshot_report, snapshot_sensors};
use thermal_sampler::report::{render_report, Reading};
use thermal_sampler::sensor::Sensor;

fn expected_sensors(system: &System) -> Vec<Sensor> {
    system
        .components()
        .iter()
        .enumerate()
        .map(|(place, c)| Sensor {
            id: place as u64,
            locator: String::new(),
            label: Some(c.label().to_string()),
        })
        .collect()
}

fn expected_readings(system: &System) -> Vec<Reading> {
    system
        .components()
        .iter()
        .enumerate()
        .map(|(place, c)| Reading {
            sensor_id: place as u64,
            value: Some(c.temperature().to_string().trim().to_string()),
        })
        .collect()
}

#[test]
fn snapshot_without_components_has_no_sensors() {
    let system = System::new();
    assert_eq!(system.components().len(), 0);
    assert_eq!(snapshot_sensors(&system), Vec::<Sensor>::new());
    assert_eq!(snapshot_readings(&system), Vec::<Reading>::new());
    assert_eq!(snapshot_report(&system, 250_000_000), "0.250000000");
}

#[test]
fn snapshot_gives_what_the_components_hold() {
    let mut system = System::new_all();
    system.refresh_components();
    assert_eq!(snapshot_sensors(&system), expected_sensors(&system));
    assert_eq!(snapshot_readings(&system), expected_readings(&system));
}

#[test]
fn snapshot_report_has_a_line_for_each_component() {
    let system = System::new_all();
    let mut expected = String::new();
    for c in system.components() {
        expected.push_str(&format!("{}: {}\n", c.label(), c.temperature()));
    }
    expected.push_str("0.000000042");
    assert_eq!(snapshot_report(&system, 42), expected);
    assert_eq!(
        snapshot_report(&system, 42),
        render_report(&snapshot_sensors(&system), &snapshot_readings(&system), 42)
    );
}
