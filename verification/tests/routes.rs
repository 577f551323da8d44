use cross_section_ui::routes::route_list;

fn ids(v: &[&str]) -> Vec<String> {
    v.iter().map(|s| s.to_string()).collect()
}

#[test]
fn routes_distinct_and_sorted() {
    assert_eq!(route_list(&ids(&["route_2", "route_1", "route_2", "route_10"])), ids(&["route_1", "route_10", "route_2"]));
    assert_eq!(route_list(&ids(&[])), ids(&[]));
    assert_eq!(route_list(&ids(&["b", "a", "ab", "", "a"])), ids(&["", "a", "ab", "b"]));
}

#[test]
fn routes_order_of_non_ascii() {
    let mut expected = ids(&["本線", "Z", "z", "側道"]);
    expected.sort();
    expected.dedup();
    assert_eq!(route_list(&ids(&["本線", "Z", "z", "側道", "Z"])), expected);
}
