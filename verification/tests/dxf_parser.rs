use cross_section_ui::dxf_parser::{load_summary, DxfParser, PeekableLines};

fn num(s: &str) -> f64 {
    s.parse::<f64>().unwrap()
}

fn lines_of(text: &str) -> Vec<Vec<char>> {
    text.lines().map(|l| l.chars().collect()).collect()
}

#[test]
fn test_parse_line() {
    let dxf = r#"0
SECTION
2
ENTITIES
0
LINE
8
Layer1
10
0.0
20
0.0
11
100.0
21
100.0
0
ENDSEC
0
EOF
"#;
    let parser = DxfParser::new();
    let result = parser.parse(dxf);

    assert_eq!(result.lines.len(), 1);
    assert_eq!(num(&result.lines[0].x1), 0.0);
    assert_eq!(num(&result.lines[0].y1), 0.0);
    assert_eq!(num(&result.lines[0].x2), 100.0);
    assert_eq!(num(&result.lines[0].y2), 100.0);
    assert_eq!(result.lines[0].layer, "Layer1");
}

#[test]
fn parse_line_defaults_and_missing_point() {
    let dxf = "0\nSECTION\n2\nENTITIES\n0\nLINE\n10\n1\n20\n2\n11\n3\n21\n4\n0\nLINE\n10\n1\n20\n2\n11\n3\n0\nENDSEC\n0\nEOF\n";
    let result = DxfParser::new().parse(dxf);
    assert_eq!(result.lines.len(), 1);
    assert_eq!(result.lines[0].color, 7);
    assert_eq!(result.lines[0].layer, "0");
    assert_eq!(result.lines[0].x1, "1");
    assert_eq!(result.lines[0].y2, "4");
}

#[test]
fn entities_outside_entities_section_are_ignored() {
    let dxf = "0\nSECTION\n2\nBLOCKS\n0\nLINE\n10\n1\n20\n2\n11\n3\n21\n4\n0\nENDSEC\n0\nEOF\n";
    let result = DxfParser::new().parse(dxf);
    assert_eq!(result.lines.len(), 0);
}

#[test]
fn parse_circle_arc_and_colors() {
    let dxf = "  0\r\nSECTION\r\n  2\r\nENTITIES\r\n  0\r\nCIRCLE\r\n  8\r\nC\r\n 10\r\n5.5\r\n 20\r\n-2\r\n 40\r\n3\r\n 62\r\n1\r\n  0\r\nARC\r\n 10\r\n0\r\n 20\r\n0\r\n 40\r\n1e1\r\n 50\r\n90\r\n 62\r\nred\r\n  0\r\nENDSEC\r\n";
    let result = DxfParser::new().parse(dxf);
    assert_eq!(result.circles.len(), 1);
    assert_eq!(result.circles[0].layer, "C");
    assert_eq!(num(&result.circles[0].center_x), 5.5);
    assert_eq!(num(&result.circles[0].center_y), -2.0);
    assert_eq!(num(&result.circles[0].radius), 3.0);
    assert_eq!(result.circles[0].color, 1);
    assert_eq!(result.arcs.len(), 1);
    assert_eq!(num(&result.arcs[0].radius), 10.0);
    assert_eq!(num(&result.arcs[0].start_angle), 90.0);
    assert_eq!(num(&result.arcs[0].end_angle), 360.0);
    assert_eq!(result.arcs[0].color, 7);
}

#[test]
fn parse_polyline_vertices_and_closed_flag() {
    let dxf = "0\nSECTION\n2\nENTITIES\n0\nLWPOLYLINE\n70\n1\n10\n0\n20\n0\n10\n1\n20\nx\n10\n2\n20\n3\n0\nLWPOLYLINE\n70\n2\n10\n1\n0\nENDSEC\n";
    let result = DxfParser::new().parse(dxf);
    assert_eq!(result.polylines.len(), 1);
    let p = &result.polylines[0];
    assert!(p.is_closed);
    assert_eq!(p.vertices.len(), 2);
    assert_eq!(num(&p.vertices[0].0), 0.0);
    assert_eq!(num(&p.vertices[1].0), 2.0);
    assert_eq!(num(&p.vertices[1].1), 3.0);
}

#[test]
fn parse_text_uses_second_point_when_aligned() {
    let dxf = "0\nSECTION\n2\nENTITIES\n0\nTEXT\n10\n1\n20\n2\n11\n30\n21\n40\n1\nNO.1\n72\n1\n0\nTEXT\n10\n1\n20\n2\n11\n30\n21\n40\n1\nplain\n40\n2.5\n0\nTEXT\n10\n1\n20\n2\n0\nENDSEC\n";
    let result = DxfParser::new().parse(dxf);
    assert_eq!(result.texts.len(), 2);
    assert_eq!(result.texts[0].text, "NO.1");
    assert_eq!(num(&result.texts[0].x), 30.0);
    assert_eq!(num(&result.texts[0].y), 40.0);
    assert_eq!(result.texts[0].align_h, 1);
    assert_eq!(num(&result.texts[0].height), 1.0);
    assert_eq!(num(&result.texts[0].rotation), 0.0);
    assert_eq!(result.texts[1].text, "plain");
    assert_eq!(num(&result.texts[1].x), 1.0);
    assert_eq!(num(&result.texts[1].height), 2.5);
}

#[test]
fn parse_header_variables() {
    let dxf = "0\nSECTION\n2\nHEADER\n9\n$ACADVER\n1\nAC1015\n9\n$INSUNITS\n70\n4\n9\n$EXTMIN\n10\n1.5\n20\nbad\n30\n0\n9\n$DIMSCALE\n40\nx\n9\n$OTHER\n70\n1\n0\nENDSEC\n";
    let result = DxfParser::new().parse(dxf);
    let h = result.header.expect("header");
    assert_eq!(h.acad_ver, "AC1015");
    assert_eq!(h.ins_units, 4);
    assert_eq!(num(&h.ext_min.0), 1.5);
    assert_eq!(num(&h.ext_min.1), 0.0);
    assert_eq!(num(&h.ext_min.2), 0.0);
    assert_eq!(num(&h.ext_max.0), 0.0);
    assert_eq!(num(&h.dim_scale), 1.0);
}

#[test]
fn no_header_section_gives_no_header() {
    let result = DxfParser::new().parse("0\nSECTION\n2\nENTITIES\n0\nENDSEC\n");
    assert!(result.header.is_none());
}

#[test]
fn heavy_entities_are_removed() {
    let dxf = "0\nSECTION\n2\nENTITIES\n0\nOLE2FRAME\n310\nDEADBEEF\n0\nLINE\n10\n0\n20\n0\n11\n1\n21\n1\n0\nENDSEC\n";
    let parser = DxfParser::new();
    let filtered = parser.remove_heavy_entities(dxf);
    assert_eq!(filtered, "0\nSECTION\n2\nENTITIES\n0\nLINE\n10\n0\n20\n0\n11\n1\n21\n1\n0\nENDSEC\n");
    let result = parser.parse(dxf);
    assert_eq!(result.lines.len(), 1);
}

#[test]
fn bad_group_code_stops_reading() {
    let dxf = "0\nSECTION\n2\nENTITIES\nxx\nLINE\n0\nLINE\n10\n0\n20\n0\n11\n1\n21\n1\n0\nENDSEC\n";
    let result = DxfParser::new().parse(dxf);
    assert_eq!(result.lines.len(), 0);
}

#[test]
fn unknown_entities_are_skipped() {
    let dxf = "0\nSECTION\n2\nENTITIES\n0\nSPLINE\n10\n0\n20\n0\n0\nLINE\n10\n0\n20\n0\n11\n1\n21\n1\n0\nENDSEC\n";
    let result = DxfParser::new().parse(dxf);
    assert_eq!(result.lines.len(), 1);
}

#[test]
fn entity_type_names() {
    let t = DxfParser::is_entity_type;
    assert!(t("LINE"));
    assert!(t("ACAD_PROXY2"));
    assert!(!t("line"));
    assert!(!t("2LINE"));
    assert!(!t(""));
}

#[test]
fn group_code_pairs_and_sections() {
    let ls = lines_of(" 2 \n ENTITIES \n 62\n 5 \n8\n");
    let parser = DxfParser::new();
    let mut it = PeekableLines::new(&ls);
    let name = parser.read_section_name(&mut it);
    assert_eq!(name, Some("ENTITIES".to_string()));
    assert_eq!(it.pos, 2);
    let pair = parser.read_group_code_pair(&mut it);
    assert_eq!(pair, Some((62, "5".to_string())));
    assert_eq!(it.pos, 4);
    let pair = parser.read_group_code_pair(&mut it);
    assert_eq!(pair, None);
    assert_eq!(it.pos, 5);
    assert_eq!(it.next(), None);
    assert_eq!(it.peek(), None);
}

#[test]
fn skip_entity_stops_at_zero() {
    let ls = lines_of("10\n1\n20\n2\n 0 \nLINE\n");
    let parser = DxfParser::new();
    let mut it = PeekableLines::new(&ls);
    parser.skip_entity(&mut it);
    assert_eq!(it.pos, 4);
}

#[test]
fn summary_counts_entities() {
    let dxf = "0\nSECTION\n2\nENTITIES\n0\nLINE\n10\n0\n20\n0\n11\n1\n21\n1\n0\nCIRCLE\n10\n0\n20\n0\n40\n1\n0\nENDSEC\n";
    let r = DxfParser::new().parse(dxf);
    assert_eq!(load_summary(&r), "Loaded: 1 lines, 1 circles, 0 arcs, 0 polylines, 0 texts");
}
