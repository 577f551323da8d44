use cross_section_ui::csv_sections::{
    check_csv_section, columns_of, group_csv_sections, parse_csv_sections, CsvSection,
};

#[test]
fn csv_groups_rows_by_section() {
    let csv = "name,unit_distance,elevation,planned_height,cutting_depth,section\n\
NO.0,0,10.5,10.6,0.05,A\n\
NO.0,3.2,10.4,10.6,0.07,A\n\
NO.1,0,11,11.1,0.03,B\n";
    let s = parse_csv_sections(csv).unwrap();
    assert_eq!(s.len(), 2);
    assert_eq!(s[0].name, "A");
    assert_eq!(s[0].unit_distances, vec!["0", "3.2"]);
    assert_eq!(s[0].elevations, vec!["10.5", "10.4"]);
    assert_eq!(s[0].planned_heights, vec!["10.6", "10.6"]);
    assert_eq!(s[0].cutting_depths, vec!["0.05", "0.07"]);
    assert_eq!(s[0].cl_index, None);
    assert_eq!(s[1].name, "B");
    assert_eq!(s[1].unit_distances, vec!["0"]);
}

#[test]
fn csv_japanese_headers_and_center_flag() {
    let csv = "測点名,単延長,現地盤,計画高,切削厚,中央\n\
NO.5,0,1,1,0.1,\n\
NO.5,2,1,1,0.1,中央\n\
NO.5,2,1,1,0.1,1\n";
    let s = parse_csv_sections(csv).unwrap();
    assert_eq!(s.len(), 1);
    assert_eq!(s[0].name, "NO.5");
    assert_eq!(s[0].unit_distances.len(), 3);
    assert_eq!(s[0].cl_index, Some(1));
}

#[test]
fn csv_cl_index_column() {
    let csv = "name,unit_distance,elevation,planned_height,cutting_depth,cl_index\n\
P,0,1,1,0,\n\
P,1,1,1,0, 2 \n";
    let s = parse_csv_sections(csv).unwrap();
    assert_eq!(s[0].cl_index, Some(2));
}

#[test]
fn csv_blank_rows_are_skipped() {
    let csv = "name,unit_distance,elevation,planned_height,cutting_depth\n\
 , , , , \n\
Q, 1 ,2,3,4\n";
    let s = parse_csv_sections(csv).unwrap();
    assert_eq!(s.len(), 1);
    assert_eq!(s[0].name, "Q");
    assert_eq!(s[0].unit_distances, vec!["1"]);
}

#[test]
fn csv_missing_column() {
    let csv = "name,unit_distance,elevation,planned_height\nA,1,2,3\n";
    assert_eq!(
        parse_csv_sections(csv).unwrap_err(),
        "missing column: cutting_depth/切削厚"
    );
    let csv = "station,unit_distance\n";
    assert_eq!(parse_csv_sections(csv).unwrap_err(), "missing column: name/測点名");
}

#[test]
fn csv_bad_cells() {
    let csv = "name,unit_distance,elevation,planned_height,cutting_depth\nA,,2,3,4\n";
    assert_eq!(parse_csv_sections(csv).unwrap_err(), "empty numeric cell");
    let csv = "name,unit_distance,elevation,planned_height,cutting_depth\nA,1,x2,3,4\n";
    assert_eq!(parse_csv_sections(csv).unwrap_err(), "invalid number: x2");
}

#[test]
fn csv_without_rows_has_no_sections() {
    let csv = "name,unit_distance,elevation,planned_height,cutting_depth\n";
    assert_eq!(parse_csv_sections(csv).unwrap_err(), "no valid sections in CSV");
}

#[test]
fn csv_unreadable_row() {
    let csv = "name,unit_distance,elevation,planned_height,cutting_depth\nA,1,2\n";
    let e = parse_csv_sections(csv).unwrap_err();
    assert!(e.starts_with("CSV row error: "));
}

#[test]
fn grouping_given_reader_results() {
    let headers: Result<Vec<String>, String> = Ok(vec![
        "name".into(),
        "unit_distance".into(),
        "elevation".into(),
        "planned_height".into(),
        "cutting_depth".into(),
    ]);
    let rec = |v: [&str; 5]| -> Result<Vec<String>, String> { Ok(v.iter().map(|s| s.to_string()).collect()) };
    let records = vec![rec(["A", "0", "1", "2", "3"]), Err("bad".to_string()), rec(["B", "0", "1", "2", "3"])];
    assert_eq!(group_csv_sections(&headers, &records).unwrap_err(), "CSV row error: bad");
    let records = vec![rec(["A", "0", "1", "2", "3"]), rec(["B", "5", "1", "2", "3"])];
    let s = group_csv_sections(&headers, &records).unwrap();
    assert_eq!(s.len(), 1);
    assert_eq!(s[0].name, "A");
    assert_eq!(s[0].unit_distances, vec!["0", "5"]);
    let e = group_csv_sections(&Err("broken".to_string()), &records).unwrap_err();
    assert_eq!(e, "CSV header error: broken");
}

#[test]
fn columns_trimmed_and_first_match() {
    let h: Vec<String> = vec![" 測点名 ".into(), "name".into(), "単延長".into(), "elevation".into(), "計画高".into(), "cutting_depth".into(), "CL".into()];
    let c = columns_of(&h).unwrap();
    assert_eq!(c.name, 1);
    assert_eq!(c.unit, 2);
    assert_eq!(c.cl_flag, Some(6));
    assert_eq!(c.section, None);
}

#[test]
fn section_checks() {
    let sec = |n: usize, e: usize, cl: Option<usize>| CsvSection {
        name: "NO.1".to_string(),
        unit_distances: vec!["0".to_string(); n],
        elevations: vec!["1".to_string(); e],
        planned_heights: vec!["1".to_string(); n],
        cutting_depths: vec!["0".to_string(); n],
        cl_index: cl,
    };
    assert_eq!(check_csv_section(&sec(0, 0, None)).unwrap_err(), "NO.1: no rows");
    assert_eq!(check_csv_section(&sec(3, 2, None)).unwrap_err(), "NO.1: column length mismatch");
    assert_eq!(check_csv_section(&sec(3, 3, None)).unwrap(), 0);
    assert_eq!(check_csv_section(&sec(3, 3, Some(1))).unwrap(), 1);
    assert_eq!(check_csv_section(&sec(3, 3, Some(9))).unwrap(), 2);
}
