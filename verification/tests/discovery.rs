use thermal_sampler::sensor::{
    classify_entry, discover, discover_root, insert_sensor, provider_sensors, DirEntry,
    DiscoveryError, EntryKind, Rejection, Sensor,
};

fn entry(name: &str, kind: EntryKind) -> DirEntry {
    DirEntry { name: Some(name.to_string()), kind }
}

fn zone(id: u64) -> Sensor {
    Sensor { id, locator: format!("thermal_zone{}/temp", id), label: None }
}

#[test]
fn discovery_keeps_only_well_named_non_files() {
    let listing = vec![
        entry("thermal_zone0", EntryKind::Directory),
        entry("thermal_zoneX", EntryKind::Directory),
        entry("cooling_device0", EntryKind::Directory),
        entry("thermal_zone1", EntryKind::RegularFile),
    ];
    let found = discover(&listing);
    assert_eq!(found, vec![zone(0)]);
    assert_eq!(found[0].locator, "thermal_zone0/temp");
    assert_eq!(found[0].id, 0);
}

#[test]
fn each_rejection_has_its_reason() {
    assert_eq!(
        classify_entry(&entry("thermal_zoneX", EntryKind::Directory)),
        Err(Rejection::MalformedId)
    );
    assert_eq!(
        classify_entry(&entry("cooling_device0", EntryKind::Directory)),
        Err(Rejection::WrongPrefix)
    );
    assert_eq!(
        classify_entry(&entry("thermal_zone1", EntryKind::RegularFile)),
        Err(Rejection::RegularFile)
    );
    assert_eq!(
        classify_entry(&entry("thermal_zone1", EntryKind::Undetermined)),
        Err(Rejection::UndeterminedKind)
    );
    assert_eq!(
        classify_entry(&DirEntry { name: None, kind: EntryKind::Directory }),
        Err(Rejection::NameNotText)
    );
}

#[test]
fn kind_is_judged_before_the_name() {
    assert_eq!(
        classify_entry(&DirEntry { name: None, kind: EntryKind::RegularFile }),
        Err(Rejection::RegularFile)
    );
    assert_eq!(
        classify_entry(&entry("cooling_device0", EntryKind::Undetermined)),
        Err(Rejection::UndeterminedKind)
    );
}

#[test]
fn symlinks_and_other_non_files_qualify() {
    assert_eq!(classify_entry(&entry("thermal_zone3", EntryKind::Symlink)), Ok(zone(3)));
    assert_eq!(classify_entry(&entry("thermal_zone4", EntryKind::Other)), Ok(zone(4)));
    assert_eq!(classify_entry(&entry("thermal_zone12", EntryKind::Directory)), Ok(zone(12)));
}

#[test]
fn malformed_ids_are_rejected() {
    for name in [
        "thermal_zone",
        "thermal_zone-1",
        "thermal_zone+1",
        "thermal_zone1 ",
        "thermal_zone 1",
        "thermal_zone1a",
        "thermal_zone1.5",
        "thermal_zone18446744073709551616",
        "thermal_zone99999999999999999999999",
    ] {
        assert_eq!(
            classify_entry(&entry(name, EntryKind::Directory)),
            Err(Rejection::MalformedId),
            "{}",
            name
        );
    }
}

#[test]
fn prefix_must_match_exactly() {
    for name in ["", "thermal", "thermal_zon", "Thermal_zone0", " thermal_zone0", "xthermal_zone0"] {
        assert_eq!(
            classify_entry(&entry(name, EntryKind::Directory)),
            Err(Rejection::WrongPrefix),
            "{}",
            name
        );
    }
}

#[test]
fn largest_id_is_accepted() {
    let got = classify_entry(&entry("thermal_zone18446744073709551615", EntryKind::Directory));
    assert_eq!(
        got,
        Ok(Sensor {
            id: u64::MAX,
            locator: "thermal_zone18446744073709551615/temp".to_string(),
            label: None
        })
    );
}

#[test]
fn leading_zeros_keep_the_name_in_the_locator() {
    let got = classify_entry(&entry("thermal_zone007", EntryKind::Directory));
    assert_eq!(
        got,
        Ok(Sensor { id: 7, locator: "thermal_zone007/temp".to_string(), label: None })
    );
}

#[test]
fn every_listing_order_gives_ascending_ids() {
    let orders: [[u64; 3]; 6] =
        [[0, 1, 2], [0, 2, 1], [1, 0, 2], [1, 2, 0], [2, 0, 1], [2, 1, 0]];
    for order in orders {
        let listing: Vec<DirEntry> = order
            .iter()
            .map(|id| entry(&format!("thermal_zone{}", id), EntryKind::Directory))
            .collect();
        assert_eq!(discover(&listing), vec![zone(0), zone(1), zone(2)]);
    }
}

#[test]
fn discovery_twice_gives_the_same_sensors() {
    let listing = vec![
        entry("thermal_zone10", EntryKind::Directory),
        entry("hwmon0", EntryKind::Directory),
        entry("thermal_zone2", EntryKind::Symlink),
        DirEntry { name: None, kind: EntryKind::Directory },
        entry("thermal_zone0", EntryKind::Directory),
    ];
    let first = discover(&listing);
    let second = discover(&listing);
    assert_eq!(first, second);
    assert_eq!(first, vec![zone(0), zone(2), zone(10)]);
}

#[test]
fn ids_are_ordered_as_numbers_not_as_text() {
    let listing = vec![
        entry("thermal_zone10", EntryKind::Directory),
        entry("thermal_zone9", EntryKind::Directory),
        entry("thermal_zone100", EntryKind::Directory),
    ];
    let ids: Vec<u64> = discover(&listing).iter().map(|s| s.id).collect();
    assert_eq!(ids, vec![9, 10, 100]);
}

#[test]
fn equal_ids_stay_in_listing_order() {
    let listing = vec![
        entry("thermal_zone01", EntryKind::Directory),
        entry("thermal_zone0", EntryKind::Directory),
        entry("thermal_zone1", EntryKind::Directory),
    ];
    let locators: Vec<String> = discover(&listing).into_iter().map(|s| s.locator).collect();
    assert_eq!(
        locators,
        vec!["thermal_zone0/temp", "thermal_zone01/temp", "thermal_zone1/temp"]
    );
}

#[test]
fn empty_listing_gives_no_sensors() {
    assert_eq!(discover(&Vec::new()), Vec::<Sensor>::new());
    assert_eq!(discover(&vec![entry("temp", EntryKind::RegularFile)]), Vec::<Sensor>::new());
}

#[test]
fn insert_sensor_goes_behind_equal_ids() {
    let mut list = vec![zone(1), zone(3), zone(5)];
    insert_sensor(&mut list, zone(4));
    insert_sensor(&mut list, zone(0));
    insert_sensor(&mut list, zone(9));
    let late = Sensor { id: 3, locator: "late".to_string(), label: None };
    insert_sensor(&mut list, late.clone());
    assert_eq!(list, vec![zone(0), zone(1), zone(3), late, zone(4), zone(5), zone(9)]);
}

#[test]
fn provider_sensors_keep_the_provider_order() {
    let labels = vec!["cpu".to_string(), "gpu".to_string(), "acpitz".to_string()];
    let sensors = provider_sensors(&labels);
    assert_eq!(
        sensors,
        vec![
            Sensor { id: 0, locator: String::new(), label: Some("cpu".to_string()) },
            Sensor { id: 1, locator: String::new(), label: Some("gpu".to_string()) },
            Sensor { id: 2, locator: String::new(), label: Some("acpitz".to_string()) },
        ]
    );
    assert!(provider_sensors(&Vec::new()).is_empty());
}

#[test]
fn unreadable_root_fails_and_empty_root_does_not() {
    assert_eq!(discover_root(None), Err(DiscoveryError::RootUnavailable));
    assert_eq!(discover_root(Some(&Vec::new())), Ok(Vec::new()));
    let listing = vec![
        entry("thermal_zone1", EntryKind::Directory),
        entry("thermal_zone0", EntryKind::Directory),
    ];
    assert_eq!(discover_root(Some(&listing)), Ok(vec![zone(0), zone(1)]));
}
