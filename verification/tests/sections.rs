use cross_section_ui::default_route_id;
use cross_section_ui::sections::{
    dekigata_filtered_sections, filtered_sections, is_integer_station, is_odd_station,
    is_plus_stake, set_route_start_end_flags, SectionMeta,
};

fn meta(name: &str, route: &str) -> SectionMeta {
    SectionMeta {
        survey_point_name: name.to_string(),
        route_id: route.to_string(),
        is_route_start: false,
        is_route_end: false,
    }
}

#[test]
fn default_route_is_route_1() {
    assert_eq!(default_route_id(), "route_1");
}

#[test]
fn route_flags_mark_first_and_last_of_each_route() {
    let mut s = vec![
        meta("NO.0", "route_1"),
        meta("NO.1", "route_2"),
        meta("NO.2", "route_1"),
        meta("NO.3", "route_1"),
        meta("NO.4", "route_3"),
    ];
    set_route_start_end_flags(&mut s);
    let starts: Vec<bool> = s.iter().map(|m| m.is_route_start).collect();
    let ends: Vec<bool> = s.iter().map(|m| m.is_route_end).collect();
    assert_eq!(starts, vec![true, true, false, false, true]);
    assert_eq!(ends, vec![false, true, false, true, true]);
    assert_eq!(s[2].survey_point_name, "NO.2");
}

#[test]
fn route_flags_are_never_cleared() {
    let mut s = vec![meta("a", "r"), meta("b", "r"), meta("c", "r")];
    s[1].is_route_start = true;
    set_route_start_end_flags(&mut s);
    assert!(s[0].is_route_start && s[1].is_route_start && !s[2].is_route_start);
    assert!(!s[0].is_route_end && !s[1].is_route_end && s[2].is_route_end);
}

#[test]
fn route_filter_keeps_order() {
    let s = vec![meta("a", "route_1"), meta("b", "route_2"), meta("c", "route_1")];
    assert_eq!(filtered_sections(&s, "route_1"), vec![0, 2]);
    assert_eq!(filtered_sections(&s, "route_2"), vec![1]);
    assert_eq!(filtered_sections(&s, "route_9"), Vec::<usize>::new());
}

#[test]
fn station_kinds() {
    assert!(is_integer_station("NO.1"));
    assert!(!is_integer_station("NO.1+10"));
    assert!(is_plus_stake("No.1+5"));
    assert!(!is_plus_stake("No.1"));
}

#[test]
fn odd_station_filter() {
    assert!(is_odd_station("NO.1"));
    assert!(!is_odd_station("NO.12"));
    assert!(is_odd_station("NO.13"));
    assert!(is_odd_station("BP"));
    assert!(!is_odd_station("1-2"));
    assert!(is_odd_station("NO.99999999999"));
}

#[test]
fn dekigata_filter_combines_route_integer_and_odd() {
    let s = vec![
        meta("NO.1", "route_1"),
        meta("NO.1+10", "route_1"),
        meta("NO.2", "route_1"),
        meta("NO.3", "route_2"),
        meta("BP", "route_1"),
    ];
    assert_eq!(dekigata_filtered_sections(&s, "route_1", true), vec![0, 4]);
    assert_eq!(dekigata_filtered_sections(&s, "route_1", false), vec![0, 2, 4]);
}
