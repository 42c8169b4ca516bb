use thermal_sampler::report::{
    display_name, render_elapsed, render_line, render_lines, render_report, value_text, Reading,
};
use thermal_sampler::sensor::{discover, DirEntry, EntryKind, Sensor};

fn zone(id: u64) -> Sensor {
    Sensor { id, locator: format!("thermal_zone{}/temp", id), label: None }
}

fn read(id: u64, text: &str) -> Reading {
    Reading::capture(id, Some(text))
}

fn failed(id: u64) -> Reading {
    Reading::capture(id, None)
}

#[test]
fn capture_trims_and_keeps_failures() {
    assert_eq!(read(2, "  39500\n"), Reading { sensor_id: 2, value: Some("39500".to_string()) });
    assert_eq!(read(0, "45000"), Reading { sensor_id: 0, value: Some("45000".to_string()) });
    assert_eq!(read(5, "\n"), Reading { sensor_id: 5, value: Some(String::new()) });
    assert_eq!(failed(1), Reading { sensor_id: 1, value: None });
}

#[test]
fn end_to_end_report_of_two_zones() {
    let listing = vec![
        DirEntry { name: Some("thermal_zone2".to_string()), kind: EntryKind::Directory },
        DirEntry { name: Some("thermal_zone0".to_string()), kind: EntryKind::Directory },
    ];
    let sensors = discover(&listing);
    let contents = [("thermal_zone0/temp", "45000"), ("thermal_zone2/temp", "  39500\n")];
    let readings: Vec<Reading> = sensors
        .iter()
        .rev()
        .map(|s| {
            let raw = contents.iter().find(|(path, _)| *path == s.locator).map(|(_, text)| *text);
            Reading::capture(s.id, raw)
        })
        .collect();
    let report = render_report(&sensors, &readings, 1_234_567);
    assert_eq!(report, "thermal_zone0: 45000\nthermal_zone2: 39500\n0.001234567");
    let body = "thermal_zone0: 45000\nthermal_zone2: 39500\n";
    assert!(report.starts_with(body));
    let elapsed: f64 = report[body.len()..].parse().unwrap();
    assert!(elapsed >= 0.0);
    assert!(!report.ends_with('\n'));
}

#[test]
fn report_follows_sensor_ids_whatever_arrives_first() {
    let sensors = vec![zone(0), zone(1), zone(2)];
    let a = read(0, "100");
    let b = read(1, "200");
    let c = read(2, "300");
    let arrivals = [
        vec![a.clone(), b.clone(), c.clone()],
        vec![a.clone(), c.clone(), b.clone()],
        vec![b.clone(), a.clone(), c.clone()],
        vec![b.clone(), c.clone(), a.clone()],
        vec![c.clone(), a.clone(), b.clone()],
        vec![c.clone(), b.clone(), a.clone()],
    ];
    for readings in arrivals.iter() {
        assert_eq!(
            render_report(&sensors, readings, 0),
            "thermal_zone0: 100\nthermal_zone1: 200\nthermal_zone2: 300\n0.000000000"
        );
    }
}

#[test]
fn failed_read_shows_the_placeholder_and_spares_the_others() {
    let sensors = vec![zone(0), zone(1), zone(2)];
    let readings = vec![read(0, "41000\n"), failed(1), read(2, "43000\n")];
    assert_eq!(
        render_lines(&sensors, &readings),
        vec!["thermal_zone0: 41000\n", "thermal_zone1: \n", "thermal_zone2: 43000\n"]
    );
    let healthy = vec![read(0, "41000\n"), read(1, "42000\n"), read(2, "43000\n")];
    let before = render_lines(&sensors, &healthy);
    let after = render_lines(&sensors, &readings);
    assert_eq!(before[0], after[0]);
    assert_eq!(before[2], after[2]);
    assert_eq!(before[1], "thermal_zone1: 42000\n");
}

#[test]
fn one_line_for_each_sensor_even_without_readings() {
    let sensors = vec![zone(0), zone(1), zone(2)];
    assert_eq!(
        render_lines(&sensors, &Vec::new()),
        vec!["thermal_zone0: \n", "thermal_zone1: \n", "thermal_zone2: \n"]
    );
    let partial = vec![failed(2), read(7, "stray"), read(0, "1")];
    let lines = render_lines(&sensors, &partial);
    assert_eq!(lines.len(), sensors.len());
    assert_eq!(lines, vec!["thermal_zone0: 1\n", "thermal_zone1: \n", "thermal_zone2: \n"]);
    assert_eq!(render_lines(&Vec::new(), &partial), Vec::<String>::new());
    assert_eq!(render_report(&Vec::new(), &partial, 2_000_000_000), "2.000000000");
}

#[test]
fn first_reading_of_an_id_is_the_one_shown() {
    let readings = vec![read(1, "first"), read(1, "second"), failed(2), read(2, "late")];
    assert_eq!(value_text(&readings, 1), "first");
    assert_eq!(value_text(&readings, 2), "");
    assert_eq!(value_text(&readings, 3), "");
}

#[test]
fn label_is_shown_where_there_is_one() {
    let cpu = Sensor { id: 4, locator: String::new(), label: Some("CPU die".to_string()) };
    assert_eq!(display_name(&cpu), "CPU die");
    assert_eq!(display_name(&zone(4)), "thermal_zone4");
    assert_eq!(display_name(&zone(u64::MAX)), "thermal_zone18446744073709551615");
    assert_eq!(render_line(&cpu, &vec![read(4, " 51.5 ")]), "CPU die: 51.5\n");
}

#[test]
fn elapsed_has_nine_decimal_places() {
    assert_eq!(render_elapsed(0), "0.000000000");
    assert_eq!(render_elapsed(123), "0.000000123");
    assert_eq!(render_elapsed(999_999_999), "0.999999999");
    assert_eq!(render_elapsed(1_000_000_000), "1.000000000");
    assert_eq!(render_elapsed(1_500_000_000), "1.500000000");
    assert_eq!(render_elapsed(u64::MAX), "18446744073.709551615");
    let seconds: f64 = render_elapsed(2_250_000_000).parse().unwrap();
    assert_eq!(seconds, 2.25);
}
