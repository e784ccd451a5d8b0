use tzhours::CellState;
use tzhours::InputError;
use tzhours::Zone;
use tzhours::hour_fmt_active;
use tzhours::hour_fmt_active_local;
use tzhours::hour_fmt_inactive;
use tzhours::read_input;
use tzhours::row_states;
use tzhours::run;
use tzhours::tz_hours_ordered;
use tzhours::tz_local;
use tzhours::zones_parse;

// 2024-01-01T17:00:00Z: UTC shows hour 17, America/Los_Angeles (UTC-8 on that
// date) shows hour 9.
fn fixed_instant() -> i64 {
    1704128400
}

fn strings(items: &[&str]) -> Vec<String> {
    items.iter().map(|s| s.to_string()).collect()
}

#[test]
fn parse_valid_zone() {
    let z = Zone::parse("UTC".to_string()).unwrap();
    assert_eq!(z.name(), "UTC");
    let z = Zone::parse("America/Los_Angeles".to_string()).unwrap();
    assert_eq!(z.name(), "America/Los_Angeles");
}

#[test]
fn parse_invalid_zone() {
    let e = Zone::parse("Not/AZone".to_string()).unwrap_err();
    assert_eq!(e.message(), "Invalid time zone: \"Not/AZone\"");
}

#[test]
fn parse_is_exact_match_only() {
    assert!(Zone::parse("utc".to_string()).is_err());
    assert!(Zone::parse(" UTC".to_string()).is_err());
    assert!(Zone::parse("".to_string()).is_err());
}

#[test]
fn zones_parse_all_valid() {
    let zs = zones_parse(strings(&["UTC", "Europe/Paris"])).unwrap();
    assert_eq!(zs.len(), 2);
    assert_eq!(zs[0].name(), "UTC");
    assert_eq!(zs[1].name(), "Europe/Paris");
}

#[test]
fn zones_parse_reports_first_invalid() {
    let e = zones_parse(strings(&["UTC", "Nope", "Also/Bad"])).unwrap_err();
    assert_eq!(e.message(), "Invalid time zone: \"Nope\"");
}

#[test]
fn tz_local_unset_is_none() {
    assert!(tz_local(None).is_none());
}

#[test]
fn tz_local_invalid_is_none() {
    assert!(tz_local(Some("garbage".to_string())).is_none());
}

#[test]
fn tz_local_valid_is_some() {
    let z = tz_local(Some("Europe/Paris".to_string())).unwrap();
    assert_eq!(z.name(), "Europe/Paris");
}

#[test]
fn read_input_prefers_arguments() {
    let zs = read_input(strings(&["UTC"]), strings(&["Europe/Paris"])).unwrap();
    assert_eq!(zs.len(), 1);
    assert_eq!(zs[0].name(), "UTC");
}

#[test]
fn read_input_falls_back_to_stdin_and_skips_empty_lines() {
    let zs = read_input(Vec::new(), strings(&["", "UTC", "", "Europe/Paris", ""])).unwrap();
    assert_eq!(zs.len(), 2);
    assert_eq!(zs[0].name(), "UTC");
    assert_eq!(zs[1].name(), "Europe/Paris");
}

#[test]
fn read_input_nothing_is_usage_error() {
    let e = read_input(Vec::new(), Vec::new()).unwrap_err();
    assert!(matches!(e, InputError::NoZones));
    assert_eq!(e.message(), "no time zones given");
    let e = read_input(Vec::new(), strings(&["", ""])).unwrap_err();
    assert!(matches!(e, InputError::NoZones));
}

#[test]
fn plain_cells_are_three_characters_wide_plus_digits() {
    assert_eq!(hour_fmt_inactive(5, false), " 5 ");
    assert_eq!(hour_fmt_active(5, false), "[5]");
    assert_eq!(hour_fmt_active_local(5, false), ">5<");
    assert_eq!(hour_fmt_inactive(17, false), " 17 ");
    assert_eq!(hour_fmt_active(17, false), "[17]");
    assert_eq!(hour_fmt_active_local(17, false), ">17<");
    assert_eq!(hour_fmt_inactive(0, false), " 0 ");
    assert_eq!(hour_fmt_active(23, false), "[23]");
}

#[test]
fn styled_cells_are_not_empty() {
    assert!(!hour_fmt_inactive(5, true).is_empty());
    assert!(!hour_fmt_active(17, true).is_empty());
    assert!(!hour_fmt_active_local(0, true).is_empty());
}

#[test]
fn one_active_cell_per_row() {
    for hour in 0..24u8 {
        for local in [false, true] {
            let states = row_states(hour, local);
            assert_eq!(states.len(), 24);
            let active: Vec<usize> = (0..24)
                .filter(|&c| states[c] != CellState::Inactive)
                .collect();
            assert_eq!(active, vec![hour as usize]);
            if local {
                assert_eq!(states[hour as usize], CellState::ActiveLocal);
            } else {
                assert_eq!(states[hour as usize], CellState::Active);
            }
        }
    }
}

#[test]
fn hours_match_an_independent_offset_computation() {
    // At the fixed instant America/Los_Angeles is on standard time, UTC-8:
    // compute the expected hour with a fixed offset, not with the zone
    // database.
    let utc_hour = 17i64;
    let la_hour = ((utc_hour - 8) % 24 + 24) % 24;
    let zones = zones_parse(strings(&["UTC", "America/Los_Angeles"])).unwrap();
    let rows = tz_hours_ordered(&zones, fixed_instant());
    assert_eq!(rows.len(), 2);
    assert_eq!(rows[0].zone.name(), "America/Los_Angeles");
    assert_eq!(rows[0].hour as i64, la_hour);
    assert_eq!(rows[1].zone.name(), "UTC");
    assert_eq!(rows[1].hour as i64, utc_hour);
}

#[test]
fn rows_are_sorted_ascending_by_hour() {
    let zones = zones_parse(strings(&[
        "UTC",
        "America/Los_Angeles",
        "Europe/Paris",
        "Asia/Tokyo",
    ]))
    .unwrap();
    let rows = tz_hours_ordered(&zones, fixed_instant());
    assert_eq!(rows.len(), 4);
    for w in rows.windows(2) {
        assert!(w[0].hour <= w[1].hour);
    }
}

#[test]
fn duplicate_zones_collapse_to_one_row() {
    let zones = zones_parse(strings(&["UTC", "UTC", "Europe/Paris", "UTC"])).unwrap();
    let rows = tz_hours_ordered(&zones, fixed_instant());
    assert_eq!(rows.len(), 2);
    let names: Vec<&str> = rows.iter().map(|r| r.zone.name()).collect();
    assert!(names.contains(&"UTC"));
    assert!(names.contains(&"Europe/Paris"));
}

#[test]
fn run_renders_two_rows_lowest_hour_first() {
    let out = run(
        strings(&["UTC", "America/Los_Angeles"]),
        Vec::new(),
        None,
        fixed_instant(),
        false,
    )
    .unwrap();
    let lines: Vec<&str> = out.lines().collect();
    assert_eq!(lines.len(), 2);
    assert!(lines[0].contains("America/Los_Angeles"));
    assert!(lines[0].contains("[9]"));
    assert!(!lines[0].contains("[17]"));
    assert!(lines[1].contains("UTC"));
    assert!(lines[1].contains("[17]"));
    assert!(!lines[1].contains("[9]"));
}

#[test]
fn run_is_deterministic() {
    let a = run(
        strings(&["UTC", "Europe/Paris", "Asia/Tokyo"]),
        Vec::new(),
        Some("Europe/Paris".to_string()),
        fixed_instant(),
        false,
    )
    .unwrap();
    let b = run(
        strings(&["UTC", "Europe/Paris", "Asia/Tokyo"]),
        Vec::new(),
        Some("Europe/Paris".to_string()),
        fixed_instant(),
        false,
    )
    .unwrap();
    assert_eq!(a, b);
}

#[test]
fn run_without_local_override_marks_no_local_cell() {
    let out = run(
        strings(&["UTC", "America/Los_Angeles"]),
        Vec::new(),
        None,
        fixed_instant(),
        false,
    )
    .unwrap();
    assert!(!out.contains('>'));
    assert!(!out.contains('<'));
}

#[test]
fn run_with_invalid_local_override_marks_no_local_cell() {
    let out = run(
        strings(&["UTC", "America/Los_Angeles"]),
        Vec::new(),
        Some("not-a-zone".to_string()),
        fixed_instant(),
        false,
    )
    .unwrap();
    assert!(!out.contains('>'));
    assert!(!out.contains('<'));
}

#[test]
fn run_with_matching_local_override_marks_exactly_that_row() {
    let out = run(
        strings(&["UTC", "America/Los_Angeles"]),
        Vec::new(),
        Some("UTC".to_string()),
        fixed_instant(),
        false,
    )
    .unwrap();
    assert!(out.contains(">17<"));
    assert!(!out.contains("[17]"));
    assert!(out.contains("[9]"));
    assert_eq!(out.matches('>').count(), 1);
}

#[test]
fn run_with_no_input_is_usage_error() {
    let r = run(Vec::new(), Vec::new(), None, fixed_instant(), false);
    let e = r.unwrap_err();
    assert!(matches!(e, InputError::NoZones));
}

#[test]
fn run_with_one_invalid_zone_fails_whole_run() {
    let r = run(
        strings(&["UTC", "Bad/Zone", "Europe/Paris"]),
        Vec::new(),
        None,
        fixed_instant(),
        false,
    );
    let e = r.unwrap_err();
    assert_eq!(e.message(), "Invalid time zone: \"Bad/Zone\"");
}

#[test]
fn run_reads_stdin_when_no_arguments() {
    let out = run(
        Vec::new(),
        strings(&["UTC", "", "America/Los_Angeles"]),
        None,
        fixed_instant(),
        false,
    )
    .unwrap();
    assert_eq!(out.lines().count(), 2);
    assert!(out.contains("[9]"));
    assert!(out.contains("[17]"));
}

#[test]
fn hour_changes_with_the_instant() {
    // One hour later the active cells move by one column.
    let zones = zones_parse(strings(&["UTC"])).unwrap();
    let rows = tz_hours_ordered(&zones, fixed_instant());
    let rows_later = tz_hours_ordered(&zones, fixed_instant() + 3600);
    assert_eq!(rows[0].hour, 17);
    assert_eq!(rows_later[0].hour, 18);
}

#[test]
fn daylight_saving_is_applied_for_the_instant() {
    // 2024-07-01T17:00:00Z: America/Los_Angeles is on daylight time, UTC-7.
    let summer = 1719853200i64;
    let zones = zones_parse(strings(&["America/Los_Angeles"])).unwrap();
    let rows = tz_hours_ordered(&zones, summer);
    assert_eq!(rows[0].hour, 10);
}

#[test]
fn zones_sharing_an_hour_keep_first_occurrence_order() {
    // Berlin and Paris share the same hour at the fixed instant; the tie is
    // resolved by the order in which the zones first appeared.
    let zones = zones_parse(strings(&["Europe/Berlin", "Europe/Paris"])).unwrap();
    let rows = tz_hours_ordered(&zones, fixed_instant());
    assert_eq!(rows[0].zone.name(), "Europe/Berlin");
    assert_eq!(rows[1].zone.name(), "Europe/Paris");
    assert_eq!(rows[0].hour, rows[1].hour);

    let zones = zones_parse(strings(&["Europe/Paris", "Europe/Berlin"])).unwrap();
    let rows = tz_hours_ordered(&zones, fixed_instant());
    assert_eq!(rows[0].zone.name(), "Europe/Paris");
    assert_eq!(rows[1].zone.name(), "Europe/Berlin");
}
